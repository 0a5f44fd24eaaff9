//! From bytes to what a screen is asked to do.
use crate::text::copy_bytes;
use crate::vt::perform::{
    control_sequence, escaped, executed, operating_system_command, osc_params, param_views, printed,
};
use crate::vt::screen::ScreenState;
use crate::vt::wrapped::{all_commanded, size_of, WrappedScreen};
use vstd::prelude::*;

verus! {

/// What is read from a terminal's output: a printed character, a control byte, or an ESC, CSI
/// or OSC sequence.
#[derive(Debug, Clone, PartialEq, Eq)]
pub enum Event {
    Print(char),
    Execute(u8),
    Esc { intermediates: Vec<u8>, byte: u8 },
    Csi { params: Vec<Vec<u16>>, intermediates: Vec<u8>, action: char },
    Osc { fields: Vec<Vec<u8>> },
}

/// The model of an event.
pub ghost enum EventView {
    Print(char),
    Execute(u8),
    Esc { intermediates: Seq<u8>, byte: u8 },
    Csi { params: Seq<Seq<u16>>, intermediates: Seq<u8>, action: char },
    Osc { fields: Seq<Seq<u8>> },
}

impl View for Event {
    type V = EventView;

    open spec fn view(&self) -> EventView {
        match self {
            Event::Print(c) => EventView::Print(*c),
            Event::Execute(b) => EventView::Execute(*b),
            Event::Esc { intermediates, byte } => EventView::Esc {
                intermediates: intermediates@,
                byte: *byte,
            },
            Event::Csi { params, intermediates, action } => EventView::Csi {
                params: param_views(params@),
                intermediates: intermediates@,
                action: *action,
            },
            Event::Osc { fields } => EventView::Osc { fields: osc_params(fields@) },
        }
    }
}

/// The models of events.
pub open spec fn event_views(v: Seq<Event>) -> Seq<EventView> {
    Seq::new(v.len(), |i: int| v[i]@)
}

/// The screen after one event.
#[verifier::opaque]
pub open spec fn played(s: ScreenState, e: EventView) -> ScreenState {
    match e {
        EventView::Print(c) => s.applied(printed(c), Seq::empty()).0,
        EventView::Execute(b) => s.applied(executed(b), Seq::empty()).0,
        EventView::Esc { intermediates, byte } => s.applied(
            escaped(intermediates, byte),
            Seq::empty(),
        ).0,
        EventView::Csi { params, intermediates, action } => s.applied(
            control_sequence(params, intermediates, action, size_of(s)),
            params,
        ).0,
        EventView::Osc { fields } => all_commanded(s, operating_system_command(fields), 0),
    }
}

/// The screen after events, from the `i`-th on.
pub open spec fn all_played(s: ScreenState, v: Seq<EventView>, i: int) -> ScreenState
    decreases v.len() - i,
{
    if !(0 <= i < v.len()) {
        s
    } else {
        all_played(played(s, v[i]), v, i + 1)
    }
}

impl<CB> WrappedScreen<CB> {
    /// One event.
    pub fn play(&mut self, e: &Event)
        requires
            old(self).wf(),
        ensures
            final(self).wf(),
            final(self).callbacks == old(self).callbacks,
            final(self).screen@ == played(old(self).screen@, e@),
    {
        proof {
            reveal(played);
        }
        match e {
            Event::Print(c) => {
                let _done = self.print(*c);
            },
            Event::Execute(b) => {
                let _done = self.execute(*b);
            },
            Event::Esc { intermediates, byte } => {
                let _done = self.esc_dispatch(intermediates.as_slice(), *byte);
            },
            Event::Csi { params, intermediates, action } => {
                let _done = self.csi_dispatch(params, intermediates.as_slice(), *action);
            },
            Event::Osc { fields } => {
                let _done = self.osc_dispatch(fields);
            },
        }
    }

    /// Events, one after the other.
    pub fn play_all(&mut self, v: &Vec<Event>)
        requires
            old(self).wf(),
        ensures
            final(self).wf(),
            final(self).callbacks == old(self).callbacks,
            final(self).screen@ == all_played(old(self).screen@, event_views(v@), 0),
    {
        let ghost views = event_views(v@);
        let ghost want = all_played(self.screen@, views, 0);
        let mut i: usize = 0;
        while i < v.len()
            invariant
                i <= v@.len(),
                views == event_views(v@),
                self.wf(),
                self.callbacks == old(self).callbacks,
                all_played(self.screen@, views, i as int) == want,
            decreases v@.len() - i,
        {
            assert(views[i as int] == v@[i as int]@);
            self.play(&v[i]);
            i += 1;
        }
    }
}

// ---- reading ----

/// A `vte::Parser`, with what it has read of a sequence that has not ended.
#[verifier::external_type_specification]
#[verifier::external_body]
pub struct ExVteParser<const OSC_RAW_BUF_SIZE: usize>(vte::Parser<OSC_RAW_BUF_SIZE>);

/// The `vte::Params` of a sequence.
#[verifier::external_type_specification]
#[verifier::external_body]
pub struct ExVteParams(vte::Params);

/// What a `vte::Parser` has been given since it was made, read by read.
pub uninterp spec fn reads_of(p: vte::Parser) -> Seq<Seq<u8>>;

/// The events that `vte::Parser::advance` reports for `bytes` to a parser that was given the
/// reads `before`.
pub uninterp spec fn vte_events(before: Seq<Seq<u8>>, bytes: Seq<u8>) -> Seq<EventView>;

/// The parameters that a `vte::Params` holds, each with its parts.
pub uninterp spec fn params_in(p: vte::Params) -> Seq<Seq<u16>>;

/// Takes down what a parser reports.
pub struct Collected {
    pub events: Vec<Event>,
}

impl vte::Perform for Collected {
    fn print(&mut self, c: char)
        ensures
            event_views(final(self).events@) == event_views(old(self).events@).push(
                EventView::Print(c),
            ),
    {
        self.take(Event::Print(c));
    }

    fn execute(&mut self, byte: u8)
        ensures
            event_views(final(self).events@) == event_views(old(self).events@).push(
                EventView::Execute(byte),
            ),
    {
        self.take(Event::Execute(byte));
    }

    fn esc_dispatch(&mut self, intermediates: &[u8], _ignore: bool, byte: u8)
        ensures
            event_views(final(self).events@) == event_views(old(self).events@).push(
                EventView::Esc { intermediates: intermediates@, byte },
            ),
    {
        self.take(Event::Esc { intermediates: copy_bytes(intermediates), byte });
    }

    fn csi_dispatch(
        &mut self,
        params: &vte::Params,
        intermediates: &[u8],
        _ignore: bool,
        action: char,
    )
        ensures
            event_views(final(self).events@) == event_views(old(self).events@).push(
                EventView::Csi {
                    params: params_in(*params),
                    intermediates: intermediates@,
                    action,
                },
            ),
    {
        let params = param_lists(params);
        let intermediates = copy_bytes(intermediates);
        self.take(Event::Csi { params, intermediates, action });
    }

    fn osc_dispatch(&mut self, params: &[&[u8]], _bell_terminated: bool)
        ensures
            event_views(final(self).events@) == event_views(old(self).events@).push(
                EventView::Osc { fields: Seq::new(params@.len(), |i: int| params@[i]@) },
            ),
    {
        let mut list: Vec<Vec<u8>> = Vec::new();
        let mut i: usize = 0;
        while i < params.len()
            invariant
                i <= params@.len(),
                list@.len() == i,
                forall|k: int| 0 <= k < i ==> (#[trigger] list@[k])@ == params@[k]@,
            decreases params@.len() - i,
        {
            list.push(copy_bytes(params[i]));
            i += 1;
        }
        assert(osc_params(list@) =~= Seq::new(params@.len(), |i: int| params@[i]@));
        self.take(Event::Osc { fields: list });
    }
}

impl Collected {
    fn take(&mut self, e: Event)
        ensures
            event_views(final(self).events@) == event_views(old(self).events@).push(e@),
    {
        self.events.push(e);
        assert(event_views(self.events@) =~= event_views(old(self).events@).push(e@));
    }
}

/// `vte::Params::iter`: the parameters in order, each with its parts.
#[verifier::external_body]
fn param_lists(params: &vte::Params) -> (r: Vec<Vec<u16>>)
    ensures
        param_views(r@) == params_in(*params),
{
    params.iter().map(|p| p.to_vec()).collect()
}

/// `vte::Parser::new`: a parser that was given nothing.
#[verifier::external_body]
fn new_vte() -> (p: vte::Parser)
    ensures
        reads_of(p) == Seq::<Seq<u8>>::empty(),
{
    vte::Parser::new()
}

/// `vte::Parser::advance`: what it reports for `bytes` depends on them and on what the parser
/// was given before, and nothing else; it then has been given them too. What is reported is
/// taken down by [`Collected`], event by event. Which events the bytes spell is not stated. The
/// reads are kept apart, for a character that is cut between two of them may be read otherwise
/// than a whole one where broken text follows.
#[verifier::external_body]
fn advance(p: &mut vte::Parser, bytes: &[u8]) -> (r: Vec<Event>)
    ensures
        event_views(r@) == vte_events(reads_of(*old(p)), bytes@),
        reads_of(*final(p)) == reads_of(*old(p)).push(bytes@),
{
    let mut out = Collected { events: Vec::new() };
    p.advance(&mut out, bytes);
    out.events
}

/// Reads a terminal's output and does on a screen what it asks for. A sequence may be split
/// between two reads.
pub struct OutputParser {
    inner: vte::Parser,
}

impl OutputParser {
    /// What was read so far, read by read.
    pub closed spec fn reads(&self) -> Seq<Seq<u8>> {
        reads_of(self.inner)
    }

    pub fn new() -> (r: OutputParser)
        ensures
            r.reads() == Seq::<Seq<u8>>::empty(),
    {
        OutputParser { inner: new_vte() }
    }

    /// One read.
    pub fn process<CB>(&mut self, screen: &mut WrappedScreen<CB>, bytes: &[u8])
        requires
            old(screen).wf(),
        ensures
            final(screen).wf(),
            final(screen).callbacks == old(screen).callbacks,
            final(screen).screen@ == all_played(
                old(screen).screen@,
                vte_events(old(self).reads(), bytes@),
                0,
            ),
            final(self).reads() == old(self).reads().push(bytes@),
    {
        let events = advance(&mut self.inner, bytes);
        screen.play_all(&events);
    }
}

} // verus!
