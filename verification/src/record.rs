//! Recordings: a line that says what follows, then a line for each message with its time.
use crate::b64::{standard_b64_bytes, standard_b64_text, standard_decode, standard_encode};
use crate::diff::{json_string, push_json_string};
use crate::model::{images_view, Frame, FrameView, PlacementView};
use crate::proto::{content_key, key_of_content, PROTOCOL_VERSION};
use crate::registry::{among, entry_texts};
use crate::text::{dec, dec_text, push_dec};
use vstd::prelude::*;
use vstd::string::*;

verus! {

/// The name of a recording that starts at a time.
pub fn file_name(millis: u64) -> (r: String)
    ensures
        r@ == dec(millis as nat) + ".sgs"@,
{
    let mut r = dec_text(millis);
    r.append(".sgs");
    r
}

/// Every recording that is named by its start has the name of a recording.
pub proof fn law_recordings_are_named_right(millis: u64)
    ensures
        crate::cliutil::stream_name(dec(millis as nat) + ".sgs"@),
{
    reveal_strlit(".sgs");
    let d = dec(millis as nat);
    crate::text::law_decimal_reads_back(millis as nat, millis as nat);
    crate::text::lemma_dec_digits(millis as nat);
    let s = d + ".sgs"@;
    assert(s.skip(s.len() - 4) =~= ".sgs"@);
    assert forall|i: int| 0 <= i < s.len() - 4 implies crate::text::is_digit(#[trigger] s[i]) by {
        assert(s[i] == d[i]);
    }
}

/// The first line: the protocol of the messages, and when they start.
pub fn header_line(start: u64) -> (r: String)
    ensures
        r@ == "{\"protocol\":"@ + dec(PROTOCOL_VERSION as nat) + ",\"shellglass\":1,\"start\":"@ + dec(
            start as nat,
        ) + "}\n"@,
{
    let mut r = String::from_str("{\"protocol\":");
    push_dec(&mut r, PROTOCOL_VERSION as u64);
    r.append(",\"shellglass\":1,\"start\":");
    push_dec(&mut r, start);
    r.append("}\n");
    r
}

/// The line for a message that came `ms` milliseconds after the start. The message stands in it
/// as it is.
pub fn event_line(ms: u64, msg: &str) -> (r: String)
    ensures
        r@ == "["@ + dec(ms as nat) + ","@ + msg@ + "]\n"@,
{
    let mut r = String::from_str("[");
    push_dec(&mut r, ms);
    r.append(",");
    r.append(msg);
    r.append("]\n");
    r
}

/// The message that uploads an image.
pub open spec fn blob_text(mime: Seq<char>, bytes: Seq<u8>) -> Seq<char> {
    "{\"blob\":{\"m\":"@ + json_string(mime) + ",\"d\":"@ + json_string(standard_b64_text(bytes)) + "}}"@
}

/// The message that uploads an image.
pub fn blob_message(mime: &str, bytes: &[u8]) -> (r: String)
    requires
        bytes@.len() <= usize::MAX / 4,
    ensures
        r@ == blob_text(mime@, bytes@),
{
    let mut r = String::from_str("{\"blob\":{\"m\":");
    push_json_string(&mut r, mime);
    r.append(",\"d\":");
    let t = standard_encode(bytes);
    push_json_string(&mut r, t.as_str());
    r.append("}}");
    r
}

/// Note that an image is in the recording: whether it was not before.
pub fn first_seen(seen: &mut Vec<String>, key: &str) -> (r: bool)
    ensures
        r == !entry_texts(old(seen)@).contains(key@),
        entry_texts(final(seen)@) == (if r {
            entry_texts(old(seen)@).push(key@)
        } else {
            entry_texts(old(seen)@)
        }),
{
    if among(seen, key) {
        return false;
    }
    let ghost was = entry_texts(seen@);
    seen.push(String::from_str(key));
    assert(entry_texts(seen@) =~= was.push(key@));
    true
}

/// An image of a frame: its key, its MIME type and its file.
pub struct Blob {
    pub key: String,
    pub mime: String,
    pub bytes: Vec<u8>,
}

/// The model of [`Blob`].
pub ghost struct BlobView {
    pub key: Seq<char>,
    pub mime: Seq<char>,
    pub bytes: Seq<u8>,
}

/// The models of images.
pub open spec fn blob_views(s: Seq<Blob>) -> Seq<BlobView> {
    Seq::new(
        s.len(),
        |i: int| BlobView { key: s[i].key@, mime: s[i].mime@, bytes: s[i].bytes@ },
    )
}

/// The keys that are in a recording after images, and the messages that bring those that were
/// not, in order.
pub open spec fn brought(blobs: Seq<BlobView>, seen: Seq<Seq<char>>) -> (
    Seq<Seq<char>>,
    Seq<Seq<char>>,
)
    decreases blobs.len(),
{
    if blobs.len() == 0 {
        (seen, Seq::empty())
    } else {
        let (keys, msgs) = brought(blobs.drop_last(), seen);
        let b = blobs.last();
        if keys.contains(b.key) {
            (keys, msgs)
        } else {
            (keys.push(b.key), msgs.push(blob_text(b.mime, b.bytes)))
        }
    }
}

/// The messages that bring the images of a frame into a recording, each once.
pub fn blob_messages(blobs: &Vec<Blob>, seen: &mut Vec<String>) -> (r: Vec<String>)
    requires
        forall|i: int| 0 <= i < blobs@.len() ==> (#[trigger] blobs@[i]).bytes@.len() <= usize::MAX / 4,
    ensures
        (entry_texts(final(seen)@), entry_texts(r@)) == brought(
            blob_views(blobs@),
            entry_texts(old(seen)@),
        ),
{
    let ghost all = blob_views(blobs@);
    let ghost start = entry_texts(seen@);
    let mut out: Vec<String> = Vec::new();
    let mut i: usize = 0;
    assert(entry_texts(out@) =~= Seq::<Seq<char>>::empty());
    assert(all.take(0) =~= Seq::<BlobView>::empty());
    while i < blobs.len()
        invariant
            i <= blobs@.len(),
            forall|j: int|
                0 <= j < blobs@.len() ==> (#[trigger] blobs@[j]).bytes@.len() <= usize::MAX / 4,
            all == blob_views(blobs@),
            (entry_texts(seen@), entry_texts(out@)) == brought(all.take(i as int), start),
        decreases blobs@.len() - i,
    {
        let b = &blobs[i];
        assert(all.take(i + 1).drop_last() =~= all.take(i as int));
        assert(all.take(i + 1).last() == all[i as int]);
        if first_seen(seen, b.key.as_str()) {
            let m = blob_message(b.mime.as_str(), b.bytes.as_slice());
            let ghost was = entry_texts(out@);
            out.push(m);
            assert(entry_texts(out@) =~= was.push(m@));
        }
        i += 1;
    }
    assert(all.take(i as int) =~= all);
    out
}

/// The image of a placement, where its payload can be decoded and written again.
pub open spec fn blob_of(p: PlacementView) -> Option<BlobView> {
    match standard_b64_bytes(p.data) {
        Some(b) => if b.len() <= usize::MAX / 4 {
            Some(BlobView { key: key_of_content(p.mime, b), mime: p.mime, bytes: b })
        } else {
            None
        },
        None => None,
    }
}

/// The images of placements, in order.
pub open spec fn blobs_of(s: Seq<PlacementView>) -> Seq<BlobView>
    decreases s.len(),
{
    if s.len() == 0 {
        Seq::empty()
    } else {
        match blob_of(s.last()) {
            Some(b) => blobs_of(s.drop_last()).push(b),
            None => blobs_of(s.drop_last()),
        }
    }
}

/// The images that a frame shows; a notice shows none.
pub fn frame_blobs(frame: &Frame) -> (r: Vec<Blob>)
    ensures
        blob_views(r@) == (match frame@ {
            FrameView::Screen(g) => blobs_of(g.images),
            FrameView::Banner(_) => Seq::empty(),
        }),
        forall|i: int| 0 <= i < r@.len() ==> (#[trigger] r@[i]).bytes@.len() <= usize::MAX / 4,
{
    let mut out: Vec<Blob> = Vec::new();
    assert(blob_views(out@) =~= Seq::<BlobView>::empty());
    match frame {
        Frame::Banner(_) => {},
        Frame::Screen(g) => {
            let ghost all = images_view(g.images@);
            let mut i: usize = 0;
            assert(all.take(0) =~= Seq::<PlacementView>::empty());
            while i < g.images.len()
                invariant
                    i <= g.images@.len(),
                    all == images_view(g.images@),
                    blob_views(out@) == blobs_of(all.take(i as int)),
                    forall|j: int|
                        0 <= j < out@.len() ==> (#[trigger] out@[j]).bytes@.len() <= usize::MAX / 4,
                decreases g.images@.len() - i,
            {
                let p = &g.images[i];
                assert(all.take(i + 1).drop_last() =~= all.take(i as int));
                assert(all.take(i + 1).last() == g.images@[i as int]@);
                if let Some(bytes) = standard_decode(p.data.as_str()) {
                    if bytes.len() <= usize::MAX / 4 {
                        let key = content_key(p.mime.as_str(), bytes.as_slice());
                        let ghost was = blob_views(out@);
                        let b = Blob { key, mime: p.mime.clone(), bytes };
                        let ghost v = BlobView { key: b.key@, mime: b.mime@, bytes: b.bytes@ };
                        assert(blob_of(all[i as int]) == Some(v));
                        out.push(b);
                        assert(blob_views(out@) =~= was.push(v));
                    }
                }
                i += 1;
            }
            assert(all.take(i as int) =~= all);
        },
    }
    out
}

proof fn lemma_brought_keys(blobs: Seq<BlobView>, seen: Seq<Seq<char>>)
    ensures
        forall|k: Seq<char>| seen.contains(k) ==> #[trigger] brought(blobs, seen).0.contains(k),
        forall|i: int|
            0 <= i < blobs.len() ==> brought(blobs, seen).0.contains((#[trigger] blobs[i]).key),
    decreases blobs.len(),
{
    if blobs.len() > 0 {
        let rest = blobs.drop_last();
        lemma_brought_keys(rest, seen);
        let before = brought(rest, seen).0;
        let after = brought(blobs, seen).0;
        let b = blobs.last();
        if !before.contains(b.key) {
            assert(after[before.len() as int] == b.key);
        }
        assert forall|k: Seq<char>| before.contains(k) implies #[trigger] after.contains(k) by {
            let j = choose|j: int| 0 <= j < before.len() && before[j] == k;
            assert(after[j] == k);
        }
        assert forall|i: int| 0 <= i < blobs.len() implies after.contains(
            (#[trigger] blobs[i]).key,
        ) by {
            if i < rest.len() {
                assert(rest[i] == blobs[i]);
            }
        }
    }
}

/// An image is brought once: the images of a frame that is recorded again bring no message.
pub proof fn law_images_are_recorded_once(blobs: Seq<BlobView>, seen: Seq<Seq<char>>)
    ensures
        brought(blobs, brought(blobs, seen).0) == (
            brought(blobs, seen).0,
            Seq::<Seq<char>>::empty(),
        ),
{
    lemma_brought_keys(blobs, seen);
    lemma_known_bring_nothing(blobs, brought(blobs, seen).0);
}

proof fn lemma_known_bring_nothing(blobs: Seq<BlobView>, seen: Seq<Seq<char>>)
    requires
        forall|i: int| 0 <= i < blobs.len() ==> seen.contains((#[trigger] blobs[i]).key),
    ensures
        brought(blobs, seen) == (seen, Seq::<Seq<char>>::empty()),
    decreases blobs.len(),
{
    if blobs.len() > 0 {
        let rest = blobs.drop_last();
        assert forall|i: int| 0 <= i < rest.len() implies seen.contains(
            (#[trigger] rest[i]).key,
        ) by {
            assert(rest[i] == blobs[i]);
        }
        lemma_known_bring_nothing(rest, seen);
        assert(seen.contains(blobs[blobs.len() - 1].key));
    }
}

} // verus!
