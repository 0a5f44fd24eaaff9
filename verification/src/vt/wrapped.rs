//! A screen behind a parser of escape sequences.
use crate::vt::grid::most;
use crate::vt::perform::{
    control_sequence, csi_dispatch, esc_dispatch, escaped, execute, executed,
    operating_system_command, osc_dispatch, osc_params, osc_views, param_views, print, printed,
    Action, OscAction, OscView,
};
use crate::vt::screen::{fresh_screen, Screen, ScreenState};
use vstd::prelude::*;

verus! {

/// A screen that does what a parser hands over, and who is told of what is not the screen's:
/// bells, a new size, the clipboard, and what is not understood. Each function says what was
/// asked for, so that its caller can tell them.
pub struct WrappedScreen<CB = ()> {
    pub screen: Screen,
    pub callbacks: CB,
}

/// The screen after things that an OSC sequence asks for, from the `i`-th on.
pub open spec fn all_commanded(s: ScreenState, v: Seq<OscView>, i: int) -> ScreenState
    decreases v.len() - i,
{
    if !(0 <= i < v.len()) {
        s
    } else {
        all_commanded(s.commanded(v[i]), v, i + 1)
    }
}

/// The size of a screen.
pub open spec fn size_of(s: ScreenState) -> (u16, u16) {
    (s.grid.rows.len() as u16, s.grid.ncols as u16)
}

impl WrappedScreen<()> {
    /// A fresh screen of at least one row and one column, with nobody to tell.
    pub fn new(rows: u16, cols: u16) -> (r: Self)
        ensures
            r.wf(),
            r.screen@ == fresh_screen(most(rows as int, 1), most(cols as int, 1)),
    {
        WrappedScreen::new_with_callbacks(rows, cols, ())
    }
}

impl<CB> WrappedScreen<CB> {
    /// What holds of every screen.
    pub open spec fn wf(&self) -> bool {
        self.screen.wf()
    }

    /// A fresh screen of at least one row and one column.
    pub fn new_with_callbacks(rows: u16, cols: u16, callbacks: CB) -> (r: Self)
        ensures
            r.wf(),
            r.screen@ == fresh_screen(most(rows as int, 1), most(cols as int, 1)),
            r.callbacks == callbacks,
    {
        WrappedScreen { screen: Screen::new(rows, cols), callbacks }
    }

    /// A printed character.
    pub fn print(&mut self, c: char) -> (r: Action)
        requires
            old(self).wf(),
        ensures
            final(self).wf(),
            final(self).callbacks == old(self).callbacks,
            r == printed(c),
            final(self).screen@ == old(self).screen@.applied(r, Seq::empty()).0,
    {
        let a = print(c);
        self.act(a);
        a
    }

    /// A control byte.
    pub fn execute(&mut self, b: u8) -> (r: Action)
        requires
            old(self).wf(),
        ensures
            final(self).wf(),
            final(self).callbacks == old(self).callbacks,
            r == executed(b),
            final(self).screen@ == old(self).screen@.applied(r, Seq::empty()).0,
    {
        let a = execute(b);
        self.act(a);
        a
    }

    /// An ESC sequence.
    pub fn esc_dispatch(&mut self, intermediates: &[u8], b: u8) -> (r: Action)
        requires
            old(self).wf(),
        ensures
            final(self).wf(),
            final(self).callbacks == old(self).callbacks,
            r == escaped(intermediates@, b),
            final(self).screen@ == old(self).screen@.applied(r, Seq::empty()).0,
    {
        let a = esc_dispatch(intermediates, b);
        self.act(a);
        a
    }

    fn act(&mut self, a: Action)
        requires
            old(self).wf(),
        ensures
            final(self).wf(),
            final(self).callbacks == old(self).callbacks,
            final(self).screen@ == old(self).screen@.applied(a, Seq::empty()).0,
    {
        let none: Vec<Vec<u16>> = Vec::new();
        assert(param_views(none@) =~= Seq::<Seq<u16>>::empty());
        let _missed = self.screen.apply(a, &none);
    }

    /// A CSI sequence, and how often it is to be reported as not understood.
    pub fn csi_dispatch(&mut self, params: &Vec<Vec<u16>>, intermediates: &[u8], c: char) -> (r: (
        Action,
        usize,
    ))
        requires
            old(self).wf(),
        ensures
            final(self).wf(),
            final(self).callbacks == old(self).callbacks,
            r.0 == control_sequence(
                param_views(params@),
                intermediates@,
                c,
                size_of(old(self).screen@),
            ),
            (final(self).screen@, r.1 as int) == old(self).screen@.applied(
                r.0,
                param_views(params@),
            ),
    {
        let a = csi_dispatch(params, intermediates, c, self.screen.size());
        let missed = self.screen.apply(a, params);
        (a, missed)
    }

    /// An OSC sequence.
    pub fn osc_dispatch(&mut self, params: &Vec<Vec<u8>>) -> (r: Vec<OscAction>)
        requires
            old(self).wf(),
        ensures
            final(self).wf(),
            final(self).callbacks == old(self).callbacks,
            osc_views(r@) == operating_system_command(osc_params(params@)),
            final(self).screen@ == all_commanded(old(self).screen@, osc_views(r@), 0),
    {
        let v = osc_dispatch(params);
        let ghost views = osc_views(v@);
        let ghost want = all_commanded(self.screen@, views, 0);
        let mut i: usize = 0;
        while i < v.len()
            invariant
                i <= v@.len(),
                views == osc_views(v@),
                self.wf(),
                self.callbacks == old(self).callbacks,
                all_commanded(self.screen@, views, i as int) == want,
            decreases v@.len() - i,
        {
            assert(views[i as int] == v@[i as int]@);
            self.screen.command(&v[i]);
            i += 1;
        }
        v
    }
}

} // verus!
