//! Character-level patches sent when a file is saved. The alignment of the
//! old and new texts comes from `similar`; grouping it into the protocol's
//! fragments is done here.

use vstd::prelude::*;
use vstd::string::StringExecFns;

verus! {

/// One piece of a patch: keep, insert or drop characters of the old text.
#[derive(Clone, Debug)]
pub enum Fragment {
    Same { length: usize },
    Added { contents: String },
    Removed { length: usize },
}

/// A fragment as a mathematical value.
pub enum FragmentView {
    Same(nat),
    Added(Seq<char>),
    Removed(nat),
}

impl View for Fragment {
    type V = FragmentView;

    open spec fn view(&self) -> FragmentView {
        match self {
            Fragment::Same { length } => FragmentView::Same(*length as nat),
            Fragment::Added { contents } => FragmentView::Added(contents@),
            Fragment::Removed { length } => FragmentView::Removed(*length as nat),
        }
    }
}

/// How one token of the old and new texts is aligned.
#[derive(Clone, Copy, Debug, PartialEq, Eq, Structural)]
pub enum ChangeKind {
    /// In both texts.
    Equal,
    /// Only in the old text.
    Delete,
    /// Only in the new text.
    Insert,
}

/// The token-by-token alignment that `similar::TextDiff::from_chars` finds
/// between `old` and `new` (as `iter_all_changes` walks it): each token's
/// kind and text.
pub uninterp spec fn char_alignment(old: Seq<char>, new: Seq<char>) -> Seq<(ChangeKind, Seq<char>)>;

pub open spec fn changes_view(changes: Seq<(ChangeKind, String)>) -> Seq<(ChangeKind, Seq<char>)> {
    changes.map_values(|c: (ChangeKind, String)| (c.0, c.1@))
}

/// Diffs `old` against `new` with `similar::TextDiff::from_chars` and lists
/// every change of every op, in order. Claimed: the list is the function
/// `char_alignment` of the two texts; each token is one character
/// (`from_chars` tokenizes with `char_indices`, one slice per character);
/// and the ops cover both texts in order, so that the kept and deleted
/// tokens spell `old` and the kept and inserted tokens spell `new` (the
/// diff runs over the whole ranges, common prefix and suffix recorded as
/// equal ops).
#[verifier::external_body]
fn char_changes(old: &str, new: &str) -> (r: Vec<(ChangeKind, String)>)
    ensures
        changes_view(r@) == char_alignment(old@, new@),
        forall|i: int| 0 <= i < r@.len() ==> (#[trigger] r@[i]).1@.len() == 1,
        old_side(changes_view(r@)) == old@,
        new_side(changes_view(r@)) == new@,
{
    similar::TextDiff::from_chars(old, new).iter_all_changes().map(
        |c| {
            let kind = match c.tag() {
                similar::ChangeTag::Equal => ChangeKind::Equal,
                similar::ChangeTag::Delete => ChangeKind::Delete,
                similar::ChangeTag::Insert => ChangeKind::Insert,
            };
            (kind, c.value().to_string())
        },
    ).collect()
}

/// The fragment that starts with one change.
pub open spec fn fragment_for(kind: ChangeKind, value: Seq<char>) -> FragmentView {
    match kind {
        ChangeKind::Equal => FragmentView::Same(1),
        ChangeKind::Delete => FragmentView::Removed(1),
        ChangeKind::Insert => FragmentView::Added(value),
    }
}

/// Whether a change of kind `kind` continues fragment `f`, and `f` so
/// continued.
pub open spec fn extends(f: FragmentView, kind: ChangeKind) -> bool {
    match (f, kind) {
        (FragmentView::Same(_), ChangeKind::Equal) => true,
        (FragmentView::Removed(_), ChangeKind::Delete) => true,
        (FragmentView::Added(_), ChangeKind::Insert) => true,
        _ => false,
    }
}

pub open spec fn extended(f: FragmentView, value: Seq<char>) -> FragmentView {
    match f {
        FragmentView::Same(n) => FragmentView::Same(n + 1),
        FragmentView::Removed(n) => FragmentView::Removed(n + 1),
        FragmentView::Added(c) => FragmentView::Added(c + value),
    }
}

/// The patch for a list of changes: runs of changes of one kind make one
/// fragment; kept and dropped runs count their changes, inserted runs hold
/// their text.
pub open spec fn fragments_of(changes: Seq<(ChangeKind, Seq<char>)>) -> Seq<FragmentView>
    decreases changes.len(),
{
    if changes.len() == 0 {
        Seq::empty()
    } else {
        let prev = fragments_of(changes.drop_last());
        let c = changes.last();
        if prev.len() > 0 && extends(prev.last(), c.0) {
            prev.update(prev.len() - 1, extended(prev.last(), c.1))
        } else {
            prev.push(fragment_for(c.0, c.1))
        }
    }
}

/// Groups a list of changes into the protocol's fragments.
pub fn fragments_from_changes(changes: &Vec<(ChangeKind, String)>) -> (r: Vec<Fragment>)
    ensures
        r@.map_values(|f: Fragment| f@) == fragments_of(changes_view(changes@)),
{
    let mut out: Vec<Fragment> = Vec::new();
    let mut i: usize = 0;
    while i < changes.len()
        invariant
            i <= changes@.len(),
            out@.map_values(|f: Fragment| f@) == fragments_of(changes_view(changes@.take(i as int))),
            forall|j: int|
                0 <= j < out@.len() ==> match #[trigger] out@[j] {
                    Fragment::Same { length } => length <= i,
                    Fragment::Removed { length } => length <= i,
                    Fragment::Added { .. } => true,
                },
        decreases changes@.len() - i,
    {
        let ghost prev_out = out@;
        let ghost cs = changes_view(changes@.take(i as int));
        let ghost cs1 = changes_view(changes@.take(i + 1));
        proof {
            assert(cs1.drop_last() =~= cs);
            assert(cs1.last() == (changes@[i as int].0, changes@[i as int].1@));
        }
        let kind = changes[i].0;
        let value = &changes[i].1;
        let n = out.len();
        let mut merged = false;
        if n > 0 {
            let last = out.pop().unwrap();
            assert(out@ =~= prev_out.drop_last());
            let replacement = match last {
                Fragment::Same { length } => {
                    if kind == ChangeKind::Equal {
                        merged = true;
                        Fragment::Same { length: length + 1 }
                    } else {
                        Fragment::Same { length }
                    }
                },
                Fragment::Removed { length } => {
                    if kind == ChangeKind::Delete {
                        merged = true;
                        Fragment::Removed { length: length + 1 }
                    } else {
                        Fragment::Removed { length }
                    }
                },
                Fragment::Added { contents } => {
                    if kind == ChangeKind::Insert {
                        merged = true;
                        Fragment::Added { contents: contents.concat(value.as_str()) }
                    } else {
                        Fragment::Added { contents }
                    }
                },
            };
            out.push(replacement);
        }
        if !merged {
            let f = match kind {
                ChangeKind::Equal => Fragment::Same { length: 1 },
                ChangeKind::Delete => Fragment::Removed { length: 1 },
                ChangeKind::Insert => Fragment::Added { contents: value.clone() },
            };
            out.push(f);
        }
        proof {
            let pv = prev_out.map_values(|f: Fragment| f@);
            assert(pv == fragments_of(cs));
            if n > 0 {
                assert(pv.last() == prev_out.last()@);
            }
            assert(out@.map_values(|f: Fragment| f@) =~= fragments_of(cs1));
        }
        i += 1;
    }
    assert(changes@.take(changes@.len() as int) =~= changes@);
    out
}

/// The patch that turns `old` into `new`: applied to `old`, it gives `new`.
pub fn compute_diff(old: &str, new: &str) -> (r: Vec<Fragment>)
    ensures
        r@.map_values(|f: Fragment| f@) == fragments_of(char_alignment(old@, new@)),
        apply_fragments(old@, r@.map_values(|f: Fragment| f@)) == Some(new@),
{
    let changes = char_changes(old, new);
    proof {
        let a = char_alignment(old@, new@);
        assert forall|i: int| 0 <= i < a.len() implies (#[trigger] a[i]).1.len() == 1 by {
            assert(a[i] == changes_view(changes@)[i]);
            assert(changes@[i].1@.len() == 1);
        }
        lemma_patch_replays_alignment(a);
    }
    fragments_from_changes(&changes)
}

/// The text a patch applies to and produces: `Some(new)` when the
/// fragments consume exactly `old` (kept runs copied, dropped runs skipped,
/// added text inserted), `None` when they do not fit it.
pub open spec fn apply_fragments(old: Seq<char>, frags: Seq<FragmentView>) -> Option<Seq<char>>
    decreases frags.len(),
{
    if frags.len() == 0 {
        if old.len() == 0 {
            Some(Seq::empty())
        } else {
            None
        }
    } else {
        let rest = frags.drop_last();
        match frags.last() {
            FragmentView::Same(n) => if n <= old.len() {
                match apply_fragments(old.take(old.len() - n), rest) {
                    Some(r) => Some(r + old.skip(old.len() - n)),
                    None => None,
                }
            } else {
                None
            },
            FragmentView::Removed(n) => if n <= old.len() {
                apply_fragments(old.take(old.len() - n), rest)
            } else {
                None
            },
            FragmentView::Added(c) => match apply_fragments(old, rest) {
                Some(r) => Some(r + c),
                None => None,
            },
        }
    }
}

/// The old text an alignment walks: its kept and dropped tokens.
pub open spec fn old_side(changes: Seq<(ChangeKind, Seq<char>)>) -> Seq<char>
    decreases changes.len(),
{
    if changes.len() == 0 {
        Seq::empty()
    } else {
        let c = changes.last();
        old_side(changes.drop_last()) + if c.0 == ChangeKind::Insert {
            Seq::empty()
        } else {
            c.1
        }
    }
}

/// The new text an alignment walks: its kept and inserted tokens.
pub open spec fn new_side(changes: Seq<(ChangeKind, Seq<char>)>) -> Seq<char>
    decreases changes.len(),
{
    if changes.len() == 0 {
        Seq::empty()
    } else {
        let c = changes.last();
        new_side(changes.drop_last()) + if c.0 == ChangeKind::Delete {
            Seq::empty()
        } else {
            c.1
        }
    }
}

/// A patch grouped from an alignment of one-character tokens, applied to the
/// alignment's old text, gives back its new text.
pub proof fn lemma_patch_replays_alignment(changes: Seq<(ChangeKind, Seq<char>)>)
    requires
        forall|i: int| 0 <= i < changes.len() ==> (#[trigger] changes[i]).1.len() == 1,
    ensures
        apply_fragments(old_side(changes), fragments_of(changes)) == Some(new_side(changes)),
    decreases changes.len(),
{
    if changes.len() > 0 {
        let pre = changes.drop_last();
        assert forall|i: int| 0 <= i < pre.len() implies (#[trigger] pre[i]).1.len() == 1 by {
            assert(pre[i] == changes[i]);
        }
        lemma_patch_replays_alignment(pre);
        let c = changes.last();
        assert(c == changes[changes.len() - 1]);
        let v = c.1;
        let o1 = old_side(pre);
        let n1 = new_side(pre);
        let prev = fragments_of(pre);
        let frags = fragments_of(changes);
        let o = old_side(changes);
        if prev.len() > 0 && extends(prev.last(), c.0) {
            let r = prev.drop_last();
            assert(frags.drop_last() =~= r);
            match prev.last() {
                FragmentView::Same(n) => {
                    let a = apply_fragments(o1.take(o1.len() - n), r)->Some_0;
                    assert(o.take(o.len() - (n + 1)) =~= o1.take(o1.len() - n));
                    assert(a + o.skip(o.len() - (n + 1)) =~= a + o1.skip(o1.len() - n) + v);
                },
                FragmentView::Removed(n) => {
                    assert(o.take(o.len() - (n + 1)) =~= o1.take(o1.len() - n));
                    assert(new_side(changes) =~= n1);
                },
                FragmentView::Added(t) => {
                    assert(o =~= o1);
                    let a = apply_fragments(o1, r)->Some_0;
                    assert(a + (t + v) =~= a + t + v);
                },
            }
        } else {
            assert(frags.drop_last() =~= prev);
            match c.0 {
                ChangeKind::Equal => {
                    assert(o.take(o.len() - 1) =~= o1);
                    assert(o.skip(o.len() - 1) =~= v);
                },
                ChangeKind::Delete => {
                    assert(o.take(o.len() - 1) =~= o1);
                    assert(new_side(changes) =~= n1);
                },
                ChangeKind::Insert => {
                    assert(o =~= o1);
                },
            }
        }
    } else {
        assert(old_side(changes) =~= Seq::<char>::empty());
    }
}

} // verus!
