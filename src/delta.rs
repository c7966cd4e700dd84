//! What the diff of two derivations holds, field by field, as spec functions
//! over the views of the data model.

use crate::bytes::bytes_lt;
use crate::grammar::derivation;
use crate::store::FileStore;
use crate::types::{
    keys_of, DerivationView, DiffLineView, DiffOrientation, EnvVarDiffView, OutputDetailDiffView,
    OutputSetDiffView, OutputView, SourcesDiffView, StringDiffView, TextDiffView,
};
use vstd::prelude::*;

verus! {

/// The union of two ascending key sequences from positions `i` and `j` on, in
/// ascending order: each slot holds the position of its key on either side,
/// or -1 where the key is missing there.
pub open spec fn align(ka: Seq<Seq<u8>>, kb: Seq<Seq<u8>>, i: int, j: int) -> Seq<(int, int)>
    decreases ka.len() - i + kb.len() - j,
{
    if i < 0 || j < 0 || i > ka.len() || j > kb.len() || (i == ka.len() && j == kb.len()) {
        Seq::empty()
    } else if j == kb.len() || (i < ka.len() && bytes_lt(ka[i], kb[j])) {
        seq![(i, -1int)] + align(ka, kb, i + 1, j)
    } else if i == ka.len() || bytes_lt(kb[j], ka[i]) {
        seq![(-1int, j)] + align(ka, kb, i, j + 1)
    } else {
        seq![(i, j)] + align(ka, kb, i + 1, j + 1)
    }
}

/// The pieces that `f` gives for each slot, one after the other.
pub open spec fn flat<T>(slots: Seq<(int, int)>, f: spec_fn((int, int)) -> Seq<T>) -> Seq<T>
    decreases slots.len(),
{
    if slots.len() == 0 {
        Seq::empty()
    } else {
        flat(slots.drop_last(), f) + f(slots.last())
    }
}

pub proof fn lemma_flat_step<T>(slots: Seq<(int, int)>, f: spec_fn((int, int)) -> Seq<T>, k: int)
    requires
        0 <= k < slots.len(),
    ensures
        flat(slots.take(k + 1), f) == flat(slots.take(k), f) + f(slots[k]),
{
    assert(slots.take(k + 1).drop_last() =~= slots.take(k));
}

/// A field that changed, or nothing where it is equal.
pub open spec fn bytes_delta(a: Seq<u8>, b: Seq<u8>) -> Option<StringDiffView> {
    if a == b {
        None
    } else {
        Some(StringDiffView { old: a, new: b })
    }
}

/// An optional field that changed, an absent side compared as empty; nothing
/// where both are absent or equal.
pub open spec fn opt_bytes_delta(a: Option<Seq<u8>>, b: Option<Seq<u8>>) -> Option<StringDiffView> {
    match (a, b) {
        (Some(x), Some(y)) => bytes_delta(x, y),
        (None, None) => None,
        (Some(x), None) => Some(StringDiffView { old: x, new: Seq::empty() }),
        (None, Some(y)) => Some(StringDiffView { old: Seq::empty(), new: y }),
    }
}

pub open spec fn output_piece(
    a: Seq<(Seq<u8>, OutputView)>,
    b: Seq<(Seq<u8>, OutputView)>,
) -> spec_fn((int, int)) -> Seq<(Seq<u8>, OutputDetailDiffView)> {
    |sl: (int, int)|
        if sl.0 >= 0 && sl.1 >= 0 {
            let (o1, o2) = (a[sl.0].1, b[sl.1].1);
            if o1 == o2 {
                Seq::empty()
            } else {
                seq![
                    (
                        a[sl.0].0,
                        OutputDetailDiffView::Changed {
                            old: o1,
                            new: o2,
                            path: bytes_delta(o1.path, o2.path),
                            hash_algo: opt_bytes_delta(o1.hash_algorithm, o2.hash_algorithm),
                            hash: opt_bytes_delta(o1.hash, o2.hash),
                        },
                    ),
                ]
            }
        } else if sl.0 >= 0 {
            seq![(a[sl.0].0, OutputDetailDiffView::Removed(a[sl.0].1))]
        } else {
            seq![(b[sl.1].0, OutputDetailDiffView::Added(b[sl.1].1))]
        }
}

/// The outputs that differ, by name in ascending order: added, removed, or
/// changed with a diff of each of their fields.
pub open spec fn outputs_delta(a: Seq<(Seq<u8>, OutputView)>, b: Seq<(Seq<u8>, OutputView)>) -> Seq<
    (Seq<u8>, OutputDetailDiffView),
> {
    flat(align(keys_of(a), keys_of(b), 0, 0), output_piece(a, b))
}

pub open spec fn env_piece(a: Seq<(Seq<u8>, Seq<u8>)>, b: Seq<(Seq<u8>, Seq<u8>)>) -> spec_fn(
    (int, int),
) -> Seq<(Seq<u8>, EnvVarDiffView)> {
    |sl: (int, int)|
        if sl.0 >= 0 && sl.1 >= 0 {
            if a[sl.0].1 == b[sl.1].1 {
                Seq::empty()
            } else {
                seq![
                    (
                        a[sl.0].0,
                        EnvVarDiffView::Changed(StringDiffView { old: a[sl.0].1, new: b[sl.1].1 }),
                    ),
                ]
            }
        } else if sl.0 >= 0 {
            seq![(a[sl.0].0, EnvVarDiffView::Removed(a[sl.0].1))]
        } else {
            seq![(b[sl.1].0, EnvVarDiffView::Added(b[sl.1].1))]
        }
}

/// The environment variables that differ, by name in ascending order.
pub open spec fn env_delta(a: Seq<(Seq<u8>, Seq<u8>)>, b: Seq<(Seq<u8>, Seq<u8>)>) -> Seq<
    (Seq<u8>, EnvVarDiffView),
> {
    flat(align(keys_of(a), keys_of(b), 0, 0), env_piece(a, b))
}

/// The argument at position `i`, empty past the end.
pub open spec fn arg_at(args: Seq<Seq<u8>>, i: int) -> Seq<u8> {
    if 0 <= i < args.len() {
        args[i]
    } else {
        Seq::empty()
    }
}

/// The positions below `n` where the arguments differ, each with both values.
pub open spec fn args_delta_upto(a: Seq<Seq<u8>>, b: Seq<Seq<u8>>, n: nat) -> Seq<(int, StringDiffView)>
    decreases n,
{
    if n == 0 {
        Seq::empty()
    } else {
        let i = n - 1;
        args_delta_upto(a, b, (n - 1) as nat) + if arg_at(a, i) == arg_at(b, i) {
            Seq::empty()
        } else {
            seq![(i, StringDiffView { old: arg_at(a, i), new: arg_at(b, i) })]
        }
    }
}

/// The positions where the arguments differ, up to the longer list's length.
pub open spec fn args_delta(a: Seq<Seq<u8>>, b: Seq<Seq<u8>>) -> Seq<(int, StringDiffView)> {
    args_delta_upto(a, b, if a.len() >= b.len() { a.len() } else { b.len() })
}

/// A set as a map whose values say nothing.
pub open spec fn set_entries(s: Seq<Seq<u8>>) -> Seq<(Seq<u8>, ())> {
    s.map_values(|k: Seq<u8>| (k, ()))
}

pub open spec fn added_piece(b: Seq<Seq<u8>>) -> spec_fn((int, int)) -> Seq<Seq<u8>> {
    |sl: (int, int)|
        if sl.0 < 0 {
            seq![b[sl.1]]
        } else {
            Seq::empty()
        }
}

pub open spec fn removed_piece(a: Seq<Seq<u8>>) -> spec_fn((int, int)) -> Seq<Seq<u8>> {
    |sl: (int, int)|
        if sl.1 < 0 {
            seq![a[sl.0]]
        } else {
            Seq::empty()
        }
}

pub open spec fn common_piece(a: Seq<Seq<u8>>) -> spec_fn((int, int)) -> Seq<Seq<u8>> {
    |sl: (int, int)|
        if sl.0 >= 0 && sl.1 >= 0 {
            seq![a[sl.0]]
        } else {
            Seq::empty()
        }
}

/// The members of `b` that `a` lacks, in ascending order.
pub open spec fn added_members(a: Seq<Seq<u8>>, b: Seq<Seq<u8>>) -> Seq<Seq<u8>> {
    flat(align(a, b, 0, 0), added_piece(b))
}

/// The members of `a` that `b` lacks, in ascending order.
pub open spec fn removed_members(a: Seq<Seq<u8>>, b: Seq<Seq<u8>>) -> Seq<Seq<u8>> {
    flat(align(a, b, 0, 0), removed_piece(a))
}

/// The members of both, in ascending order.
pub open spec fn common_members(a: Seq<Seq<u8>>, b: Seq<Seq<u8>>) -> Seq<Seq<u8>> {
    flat(align(a, b, 0, 0), common_piece(a))
}

/// The tagged lines of a line-by-line diff of `old` against `new`.
pub uninterp spec fn line_changes(old: Seq<u8>, new: Seq<u8>) -> Seq<DiffLineView>;

/// The tagged words and whitespace runs of a word-by-word diff.
pub uninterp spec fn word_changes(old: Seq<u8>, new: Seq<u8>) -> Seq<DiffLineView>;

/// The tagged characters of a character-by-character diff.
pub uninterp spec fn char_changes(old: Seq<u8>, new: Seq<u8>) -> Seq<DiffLineView>;

/// The content diff of two buffers: binary where either holds a NUL byte,
/// otherwise the sequence diff at the chosen granularity.
pub open spec fn content_delta(a: Seq<u8>, b: Seq<u8>, o: DiffOrientation) -> TextDiffView {
    if a.contains(0u8) || b.contains(0u8) {
        TextDiffView::Binary
    } else {
        TextDiffView::Text(
            match o {
                DiffOrientation::Line => line_changes(a, b),
                DiffOrientation::Word => word_changes(a, b),
                DiffOrientation::Character => char_changes(a, b),
            },
        )
    }
}

pub open spec fn source_piece(a: Seq<Seq<u8>>, fs1: FileStore, fs2: FileStore, o: DiffOrientation) -> spec_fn(
    (int, int),
) -> Seq<(Seq<u8>, TextDiffView)> {
    |sl: (int, int)|
        if sl.0 >= 0 && sl.1 >= 0 {
            let p = a[sl.0];
            match (fs1.contents(p), fs2.contents(p)) {
                (Some(c1), Some(c2)) => if c1 == c2 {
                    Seq::empty()
                } else {
                    seq![(p, content_delta(c1, c2, o))]
                },
                _ => Seq::empty(),
            }
        } else {
            Seq::empty()
        }
}

/// Sources added and removed, and the shared sources whose contents, read
/// from each side's store, differ; a source missing from either store is
/// passed over.
pub open spec fn sources_delta(a: Seq<Seq<u8>>, b: Seq<Seq<u8>>, fs1: FileStore, fs2: FileStore, o: DiffOrientation) -> SourcesDiffView {
    SourcesDiffView {
        added: added_members(a, b),
        removed: removed_members(a, b),
        common: flat(align(a, b, 0, 0), source_piece(a, fs1, fs2, o)),
    }
}

pub open spec fn sources_empty(d: SourcesDiffView) -> bool {
    d.added.len() == 0 && d.removed.len() == 0 && d.common.len() == 0
}

/// The derivation stored under `p`, where it is there and parses.
pub open spec fn sub_recipe(fs: FileStore, p: Seq<u8>) -> Option<DerivationView> {
    match fs.contents(p) {
        Some(b) => match derivation(b) {
            Ok(d) => Some(d),
            Err(_) => None,
        },
        None => None,
    }
}

/// The output names requested on one side only, where there are any.
pub open spec fn output_set_delta(s1: Seq<Seq<u8>>, s2: Seq<Seq<u8>>) -> Option<OutputSetDiffView> {
    if added_members(s1, s2).len() == 0 && removed_members(s1, s2).len() == 0 {
        None
    } else {
        Some(OutputSetDiffView { added: added_members(s1, s2), removed: removed_members(s1, s2) })
    }
}

/// The two versions of a shared input derivation, where both are available
/// and they differ.
pub open spec fn sub_recipes_delta(fs1: FileStore, fs2: FileStore, p: Seq<u8>) -> Option<(DerivationView, DerivationView)> {
    match (sub_recipe(fs1, p), sub_recipe(fs2, p)) {
        (Some(d1), Some(d2)) => if d1 != d2 {
            Some((d1, d2))
        } else {
            None
        },
        _ => None,
    }
}

pub open spec fn input_piece(
    a: Seq<(Seq<u8>, Seq<Seq<u8>>)>,
    b: Seq<(Seq<u8>, Seq<Seq<u8>>)>,
    fs1: FileStore,
    fs2: FileStore,
) -> spec_fn((int, int)) -> Seq<(Seq<u8>, Option<OutputSetDiffView>, Option<(DerivationView, DerivationView)>)> {
    |sl: (int, int)|
        if sl.0 >= 0 && sl.1 >= 0 {
            let p = a[sl.0].0;
            let outs = output_set_delta(a[sl.0].1, b[sl.1].1);
            let sub = sub_recipes_delta(fs1, fs2, p);
            if outs is None && sub is None {
                Seq::empty()
            } else {
                seq![(p, outs, sub)]
            }
        } else {
            Seq::empty()
        }
}

/// The shared input derivations that differ, in ascending order of path: in
/// the outputs requested from them, in their own content, or both.
pub open spec fn inputs_changed(a: Seq<(Seq<u8>, Seq<Seq<u8>>)>, b: Seq<(Seq<u8>, Seq<Seq<u8>>)>, fs1: FileStore, fs2: FileStore) -> Seq<(Seq<u8>, Option<OutputSetDiffView>, Option<(DerivationView, DerivationView)>)> {
    flat(align(keys_of(a), keys_of(b), 0, 0), input_piece(a, b, fs1, fs2))
}

} // verus!
