//! The diff engine: compares two derivations field by field and recurses into
//! the input derivations they share.

use crate::bytes::{bytes_equal, compare_bytes, contains_byte, to_vec};
use crate::delta::{
    added_members, added_piece, align, arg_at, args_delta, args_delta_upto, bytes_delta,
    char_changes, common_members, common_piece, content_delta, env_delta, env_piece, flat,
    input_piece, inputs_changed, lemma_flat_step, line_changes, opt_bytes_delta, output_piece,
    output_set_delta, outputs_delta, removed_members, removed_piece, source_piece, sources_delta,
    sources_empty, sub_recipe, word_changes,
};
use crate::equal::{copy_bytes, copy_output, same_output};
use crate::parser::parse_derivation_bytes;
use crate::store::FileStore;
use crate::types::{
    arguments_view, env_diff_view, env_view, input_entry_view, inputs_view, keys_of,
    opt_output_set_view, opt_string_diff_view, opt_view, outputs_view, paths_view, seqs_view,
    ArgumentsDiff, Derivation, DerivationDiff, DerivationPath, DerivationView, DiffLine,
    DiffOrientation, EnvVarDiff, EnvironmentDiff, InputDiff, InputsDiff, Output,
    OutputDetailDiff, OutputDiff, OutputSetDiff, OutputSetDiffView, OutputsDiff, SourceDiff,
    SourcesDiff, StringDiff, TextDiff, TextDiffView,
};
use core::cmp::Ordering;
use vstd::prelude::*;
use vstd::set_lib::lemma_len_subset;

verus! {

/// Relies on similar::TextDiff::from_lines: the line-by-line diff of two
/// buffers, each change with its tag; the result depends on the buffers alone.
#[verifier::external_body]
fn diff_lines(old: &[u8], new: &[u8]) -> (r: Vec<DiffLine>)
    ensures
        r@.map_values(|l: DiffLine| l@) == line_changes(old@, new@),
{
    let diff = similar::TextDiff::from_lines(old, new);
    let mut lines = Vec::new();
    for change in diff.iter_all_changes() {
        let value = change.value().to_vec();
        lines.push(match change.tag() {
            similar::ChangeTag::Equal => DiffLine::Context(value),
            similar::ChangeTag::Insert => DiffLine::Added(value),
            similar::ChangeTag::Delete => DiffLine::Removed(value),
        });
    }
    lines
}

/// Relies on similar::TextDiff::from_words: the word-by-word diff of two
/// buffers, each change with its tag; the result depends on the buffers alone.
#[verifier::external_body]
fn diff_words(old: &[u8], new: &[u8]) -> (r: Vec<DiffLine>)
    ensures
        r@.map_values(|l: DiffLine| l@) == word_changes(old@, new@),
{
    let diff = similar::TextDiff::from_words(old, new);
    let mut lines = Vec::new();
    for change in diff.iter_all_changes() {
        let value = change.value().to_vec();
        lines.push(match change.tag() {
            similar::ChangeTag::Equal => DiffLine::Context(value),
            similar::ChangeTag::Insert => DiffLine::Added(value),
            similar::ChangeTag::Delete => DiffLine::Removed(value),
        });
    }
    lines
}

/// Relies on similar::TextDiff::from_chars: the character-by-character diff
/// of two buffers, each change with its tag; the result depends on the
/// buffers alone.
#[verifier::external_body]
fn diff_chars(old: &[u8], new: &[u8]) -> (r: Vec<DiffLine>)
    ensures
        r@.map_values(|l: DiffLine| l@) == char_changes(old@, new@),
{
    let diff = similar::TextDiff::from_chars(old, new);
    let mut lines = Vec::new();
    for change in diff.iter_all_changes() {
        let value = change.value().to_vec();
        lines.push(match change.tag() {
            similar::ChangeTag::Equal => DiffLine::Context(value),
            similar::ChangeTag::Insert => DiffLine::Added(value),
            similar::ChangeTag::Delete => DiffLine::Removed(value),
        });
    }
    lines
}

/// The line-by-line diff of two buffers.
pub fn line_diff(old: &[u8], new: &[u8]) -> (r: TextDiff)
    ensures
        r@ == TextDiffView::Text(line_changes(old@, new@)),
{
    TextDiff::Text(diff_lines(old, new))
}

/// The content diff of two buffers: binary where either holds a NUL byte,
/// otherwise the sequence diff at the given granularity.
pub fn diff_contents(content1: &[u8], content2: &[u8], orientation: DiffOrientation) -> (r: TextDiff)
    ensures
        r@ == content_delta(content1@, content2@, orientation),
{
    if contains_byte(content1, 0) || contains_byte(content2, 0) {
        return TextDiff::Binary;
    }
    let lines = match orientation {
        DiffOrientation::Line => diff_lines(content1, content2),
        DiffOrientation::Word => diff_words(content1, content2),
        DiffOrientation::Character => diff_chars(content1, content2),
    };
    TextDiff::Text(lines)
}

/// An exec slot seen as a spec slot: -1 where a side is missing.
pub open spec fn slot_view(sl: (Option<usize>, Option<usize>)) -> (int, int) {
    (
        match sl.0 {
            Some(i) => i as int,
            None => -1,
        },
        match sl.1 {
            Some(j) => j as int,
            None => -1,
        },
    )
}

pub open spec fn slots_view(v: Seq<(Option<usize>, Option<usize>)>) -> Seq<(int, int)> {
    v.map_values(|sl: (Option<usize>, Option<usize>)| slot_view(sl))
}

/// Slots point inside their sides.
pub open spec fn slots_in_range(v: Seq<(int, int)>, la: int, lb: int) -> bool {
    forall|k: int|
        0 <= k < v.len() ==> {
            &&& #[trigger] v[k].0 < la
            &&& v[k].1 < lb
            &&& (v[k].0 >= 0 || v[k].1 >= 0)
        }
}

pub proof fn lemma_align_in_range(ka: Seq<Seq<u8>>, kb: Seq<Seq<u8>>, i: int, j: int)
    ensures
        slots_in_range(align(ka, kb, i, j), ka.len() as int, kb.len() as int),
    decreases ka.len() - i + kb.len() - j,
{
    if i < 0 || j < 0 || i > ka.len() || j > kb.len() || (i == ka.len() && j == kb.len()) {
    } else if j == kb.len() || (i < ka.len() && crate::bytes::bytes_lt(ka[i], kb[j])) {
        lemma_align_in_range(ka, kb, i + 1, j);
    } else if i == ka.len() || crate::bytes::bytes_lt(kb[j], ka[i]) {
        lemma_align_in_range(ka, kb, i, j + 1);
    } else {
        lemma_align_in_range(ka, kb, i + 1, j + 1);
    }
}

/// Walks the ascending keys of both sides together: one slot per key of
/// either side, in ascending order.
pub fn align_keys(ka: &Vec<&[u8]>, kb: &Vec<&[u8]>) -> (r: Vec<(Option<usize>, Option<usize>)>)
    ensures
        slots_view(r@) == align(
            ka@.map_values(|k: &[u8]| k@),
            kb@.map_values(|k: &[u8]| k@),
            0,
            0,
        ),
        slots_in_range(slots_view(r@), ka@.len() as int, kb@.len() as int),
{
    let ghost a = ka@.map_values(|k: &[u8]| k@);
    let ghost b = kb@.map_values(|k: &[u8]| k@);
    let mut r: Vec<(Option<usize>, Option<usize>)> = Vec::new();
    let mut i: usize = 0;
    let mut j: usize = 0;
    proof {
        lemma_align_in_range(a, b, 0, 0);
    }
    while i < ka.len() || j < kb.len()
        invariant
            a == ka@.map_values(|k: &[u8]| k@),
            b == kb@.map_values(|k: &[u8]| k@),
            i <= ka@.len(),
            j <= kb@.len(),
            align(a, b, 0, 0) == slots_view(r@) + align(a, b, i as int, j as int),
        decreases ka@.len() - i + kb@.len() - j,
    {
        let ghost before = slots_view(r@);
        let sl: (Option<usize>, Option<usize>);
        if j == kb.len() {
            sl = (Some(i), None);
            i = i + 1;
        } else if i == ka.len() {
            sl = (None, Some(j));
            j = j + 1;
        } else {
            match compare_bytes(ka[i], kb[j]) {
                Ordering::Less => {
                    sl = (Some(i), None);
                    i = i + 1;
                },
                Ordering::Greater => {
                    sl = (None, Some(j));
                    j = j + 1;
                },
                Ordering::Equal => {
                    sl = (Some(i), Some(j));
                    i = i + 1;
                    j = j + 1;
                },
            }
        }
        r.push(sl);
        assert(slots_view(r@) =~= before.push(slot_view(sl)));
        assert(before + (seq![slot_view(sl)] + align(a, b, i as int, j as int)) =~= slots_view(r@)
            + align(a, b, i as int, j as int));
    }
    assert(slots_view(r@) + Seq::<(int, int)>::empty() =~= slots_view(r@));
    r
}

/// The keys of a map, borrowed.
fn entry_keys<V>(m: &Vec<(Vec<u8>, V)>) -> (r: Vec<&[u8]>)
    ensures
        r@.map_values(|k: &[u8]| k@) == m@.map_values(|e: (Vec<u8>, V)| e.0@),
{
    let mut r: Vec<&[u8]> = Vec::new();
    let mut i: usize = 0;
    while i < m.len()
        invariant
            i <= m@.len(),
            r@.map_values(|k: &[u8]| k@) == m@.take(i as int).map_values(
                |e: (Vec<u8>, V)| e.0@,
            ),
        decreases m@.len() - i,
    {
        r.push(m[i].0.as_slice());
        assert(m@.take(i + 1).map_values(|e: (Vec<u8>, V)| e.0@) =~= m@.take(i as int).map_values(
            |e: (Vec<u8>, V)| e.0@,
        ).push(m@[i as int].0@));
        assert(r@.map_values(|k: &[u8]| k@) =~= m@.take(i + 1).map_values(
            |e: (Vec<u8>, V)| e.0@,
        ));
        i = i + 1;
    }
    assert(m@.take(i as int) =~= m@);
    r
}

/// The members of a set, borrowed.
fn member_keys(s: &Vec<Vec<u8>>) -> (r: Vec<&[u8]>)
    ensures
        r@.map_values(|k: &[u8]| k@) == seqs_view(s@),
{
    let mut r: Vec<&[u8]> = Vec::new();
    let mut i: usize = 0;
    while i < s.len()
        invariant
            i <= s@.len(),
            r@.map_values(|k: &[u8]| k@) == seqs_view(s@.take(i as int)),
        decreases s@.len() - i,
    {
        r.push(s[i].as_slice());
        assert(seqs_view(s@.take(i + 1)) =~= seqs_view(s@.take(i as int)).push(s@[i as int]@));
        assert(r@.map_values(|k: &[u8]| k@) =~= seqs_view(s@.take(i + 1)));
        i = i + 1;
    }
    assert(s@.take(i as int) =~= s@);
    r
}

/// The paths of `paths` whose diagonal pair `(p, p)` is not in `memo`.
pub open spec fn unvisited(paths: Set<Seq<u8>>, memo: Set<(Seq<u8>, Seq<u8>)>) -> nat {
    paths.filter(|p: Seq<u8>| !memo.contains((p, p))).len()
}

pub proof fn lemma_unvisited_grows(paths: Set<Seq<u8>>, m1: Set<(Seq<u8>, Seq<u8>)>, m2: Set<(Seq<u8>, Seq<u8>)>)
    requires
        paths.finite(),
        m1.subset_of(m2),
    ensures
        unvisited(paths, m2) <= unvisited(paths, m1),
{
    let f1 = paths.filter(|p: Seq<u8>| !m1.contains((p, p)));
    let f2 = paths.filter(|p: Seq<u8>| !m2.contains((p, p)));
    paths.lemma_len_filter(|p: Seq<u8>| !m1.contains((p, p)));
    assert(f2.subset_of(f1));
    lemma_len_subset(f2, f1);
}

pub proof fn lemma_unvisited_visit(paths: Set<Seq<u8>>, m: Set<(Seq<u8>, Seq<u8>)>, p: Seq<u8>)
    requires
        paths.finite(),
        paths.contains(p),
        !m.contains((p, p)),
    ensures
        unvisited(paths, m.insert((p, p))) == unvisited(paths, m) - 1,
{
    let f1 = paths.filter(|q: Seq<u8>| !m.contains((q, q)));
    let f2 = paths.filter(|q: Seq<u8>| !m.insert((p, p)).contains((q, q)));
    paths.lemma_len_filter(|q: Seq<u8>| !m.contains((q, q)));
    assert(f2 =~= f1.remove(p));
}

/// The diff `r` compares `r.original` with `r.new` at its top level: every
/// field diff is the one that the two derivations and the two stores give.
pub open spec fn top_holds(r: DerivationDiff, fs1: FileStore, fs2: FileStore, o: DiffOrientation) -> bool {
    let d1 = r.original@;
    let d2 = r.new@;
    &&& r.outputs@ == outputs_delta(d1.outputs, d2.outputs)
    &&& (r.outputs is Identical <==> outputs_delta(d1.outputs, d2.outputs).len() == 0)
    &&& opt_string_diff_view(r.platform) == bytes_delta(d1.platform, d2.platform)
    &&& opt_string_diff_view(r.builder) == bytes_delta(d1.builder, d2.builder)
    &&& match r.args {
        Some(a) => arguments_view(a@) == args_delta(d1.args, d2.args) && a@.len() > 0,
        None => args_delta(d1.args, d2.args).len() == 0,
    }
    &&& match r.sources {
        Some(s) => s@ == sources_delta(d1.input_sources, d2.input_sources, fs1, fs2, o)
            && !sources_empty(s@),
        None => sources_empty(sources_delta(d1.input_sources, d2.input_sources, fs1, fs2, o)),
    }
    &&& match r.inputs {
        Some(ins) => inputs_hold(ins, d1.input_derivations, d2.input_derivations, fs1, fs2)
            && !inputs_empty(d1.input_derivations, d2.input_derivations, fs1, fs2),
        None => inputs_empty(d1.input_derivations, d2.input_derivations, fs1, fs2),
    }
    &&& match r.env {
        Some(e) => env_diff_view(e@) == env_delta(d1.env, d2.env) && e@.len() > 0,
        None => env_delta(d1.env, d2.env).len() == 0,
    }
}

/// The inputs diff of two input-derivation maps: added and removed paths and
/// the shared paths that differ, each in ascending order.
pub open spec fn inputs_hold(
    ins: InputsDiff,
    a: Seq<(Seq<u8>, Seq<Seq<u8>>)>,
    b: Seq<(Seq<u8>, Seq<Seq<u8>>)>,
    fs1: FileStore,
    fs2: FileStore,
) -> bool {
    &&& paths_view(ins.added@) == added_members(keys_of(a), keys_of(b))
    &&& paths_view(ins.removed@) == removed_members(keys_of(a), keys_of(b))
    &&& ins.changed@.map_values(|c: InputDiff| input_entry_view(c)) == inputs_changed(
        a,
        b,
        fs1,
        fs2,
    )
}

pub open spec fn inputs_empty(
    a: Seq<(Seq<u8>, Seq<Seq<u8>>)>,
    b: Seq<(Seq<u8>, Seq<Seq<u8>>)>,
    fs1: FileStore,
    fs2: FileStore,
) -> bool {
    &&& added_members(keys_of(a), keys_of(b)).len() == 0
    &&& removed_members(keys_of(a), keys_of(b)).len() == 0
    &&& inputs_changed(a, b, fs1, fs2).len() == 0
}

/// Every nested diff in `changed` holds.
pub open spec fn nested_hold(changed: Seq<InputDiff>, fs1: FileStore, fs2: FileStore, o: DiffOrientation) -> bool
    decreases changed,
{
    forall|i: int|
        0 <= i < changed.len() ==> match #[trigger] changed[i].derivation {
            Some(b) => diff_holds(*b, fs1, fs2, o),
            None => true,
        }
}

/// The diff `r` compares `r.original` with `r.new` in full at every level of
/// nesting, except where a level is the identical diff that a pair compared
/// before in the same session gets.
pub open spec fn diff_holds(r: DerivationDiff, fs1: FileStore, fs2: FileStore, o: DiffOrientation) -> bool
    decreases r,
{
    r.is_identical() || (top_holds(r, fs1, fs2, o) && match r.inputs {
        Some(ins) => nested_hold(ins.changed@, fs1, fs2, o),
        None => true,
    })
}

/// The identifier pairs of the nodes of `r` that report a difference, `r`
/// itself standing for `id` and each nested diff for its path paired with
/// itself, in depth-first order.
pub open spec fn differing_nodes(r: DerivationDiff, id: (Seq<u8>, Seq<u8>)) -> Seq<(Seq<u8>, Seq<u8>)>
    decreases r, 1nat,
{
    if r.is_identical() {
        Seq::empty()
    } else {
        seq![id] + match r.inputs {
            Some(ins) => nested_nodes(ins.changed@, ins.changed@.len()),
            None => Seq::empty(),
        }
    }
}

/// The differing nodes under the first `k` changed input derivations.
pub open spec fn nested_nodes(changed: Seq<InputDiff>, k: nat) -> Seq<(Seq<u8>, Seq<u8>)>
    decreases changed, k,
{
    if k == 0 || k > changed.len() {
        Seq::empty()
    } else {
        nested_nodes(changed, (k - 1) as nat) + match changed[k - 1].derivation {
            Some(b) => differing_nodes(*b, (changed[k - 1].path@, changed[k - 1].path@)),
            None => Seq::empty(),
        }
    }
}

/// Every pair in `nodes` was compared in the session between the states
/// `before` and `after`.
pub open spec fn compared_between(
    nodes: Seq<(Seq<u8>, Seq<u8>)>,
    before: Set<(Seq<u8>, Seq<u8>)>,
    after: Set<(Seq<u8>, Seq<u8>)>,
) -> bool {
    forall|i: int| 0 <= i < nodes.len() ==> after.contains(#[trigger] nodes[i]) && !before.contains(nodes[i])
}

/// The differing nodes of an optional nested diff for `path`.
pub open spec fn subtree_nodes(d: Option<Box<DerivationDiff>>, path: Seq<u8>) -> Seq<(Seq<u8>, Seq<u8>)> {
    match d {
        Some(b) => differing_nodes(*b, (path, path)),
        None => Seq::empty(),
    }
}

/// The differing nodes under an optional inputs diff.
pub open spec fn inputs_nodes(i: Option<InputsDiff>) -> Seq<(Seq<u8>, Seq<u8>)> {
    match i {
        Some(ins) => nested_nodes(ins.changed@, ins.changed@.len()),
        None => Seq::empty(),
    }
}

proof fn lemma_nested_nodes_prefix(changed: Seq<InputDiff>, c: InputDiff, k: nat)
    requires
        k <= changed.len(),
    ensures
        nested_nodes(changed.push(c), k) == nested_nodes(changed, k),
    decreases k,
{
    if k > 0 {
        lemma_nested_nodes_prefix(changed, c, (k - 1) as nat);
        assert(changed.push(c)[k - 1] == changed[k - 1]);
    }
}

/// One diff session: the pairs compared so far, how content diffs are split,
/// and the stores that each side's referenced files are read from.
pub struct DiffContext {
    already_compared: Vec<(Vec<u8>, Vec<u8>)>,
    orientation: DiffOrientation,
    #[allow(dead_code)]
    context_lines: usize,
    old_files: FileStore,
    new_files: FileStore,
}

impl DiffContext {
    /// The pairs of identifiers compared so far in this session.
    pub closed spec fn compared(&self) -> Set<(Seq<u8>, Seq<u8>)> {
        self.already_compared@.map_values(|e: (Vec<u8>, Vec<u8>)| (e.0@, e.1@)).to_set()
    }

    /// The store of the first side.
    pub closed spec fn files1(&self) -> FileStore {
        self.old_files
    }

    /// The store of the second side.
    pub closed spec fn files2(&self) -> FileStore {
        self.new_files
    }

    pub closed spec fn orientation(&self) -> DiffOrientation {
        self.orientation
    }

    /// How far a comparison of `(id1, id2)` is from the end of the session.
    pub open spec fn rank(&self, id1: Seq<u8>, id2: Seq<u8>) -> nat {
        4 * unvisited(self.files1().paths(), self.compared()) + if self.compared().contains(
            (id1, id2),
        ) {
            0nat
        } else if id1 == id2 && self.files1().paths().contains(id1) {
            1nat
        } else {
            3nat
        }
    }

    /// A diff session over two stores, one per side, in which nothing has
    /// been compared yet.
    pub fn new(
        orientation: DiffOrientation,
        context_lines: usize,
        old_files: FileStore,
        new_files: FileStore,
    ) -> (r: DiffContext)
        ensures
            r.compared() == Set::<(Seq<u8>, Seq<u8>)>::empty(),
            r.files1() == old_files,
            r.files2() == new_files,
            r.orientation() == orientation,
    {
        let r = DiffContext {
            already_compared: Vec::new(),
            orientation,
            context_lines,
            old_files,
            new_files,
        };
        assert(r.compared() =~= Set::<(Seq<u8>, Seq<u8>)>::empty());
        r
    }

    fn has_compared(&self, path1: &[u8], path2: &[u8]) -> (r: bool)
        ensures
            r == self.compared().contains((path1@, path2@)),
    {
        let ghost v = self.already_compared@.map_values(|e: (Vec<u8>, Vec<u8>)| (e.0@, e.1@));
        let mut i: usize = 0;
        while i < self.already_compared.len()
            invariant
                i <= v.len(),
                v == self.already_compared@.map_values(|e: (Vec<u8>, Vec<u8>)| (e.0@, e.1@)),
                forall|j: int| 0 <= j < i ==> v[j] != (path1@, path2@),
            decreases v.len() - i,
        {
            let (a, b) = &self.already_compared[i];
            if bytes_equal(a.as_slice(), path1) && bytes_equal(b.as_slice(), path2) {
                assert(v[i as int] == (path1@, path2@));
                return true;
            }
            i = i + 1;
        }
        false
    }

    fn record(&mut self, path1: &[u8], path2: &[u8])
        ensures
            final(self).compared() == old(self).compared().insert((path1@, path2@)),
            final(self).files1() == old(self).files1(),
            final(self).files2() == old(self).files2(),
            final(self).orientation() == old(self).orientation(),
    {
        let ghost v = self.already_compared@.map_values(|e: (Vec<u8>, Vec<u8>)| (e.0@, e.1@));
        self.already_compared.push((to_vec(path1), to_vec(path2)));
        let ghost w = self.already_compared@.map_values(|e: (Vec<u8>, Vec<u8>)| (e.0@, e.1@));
        assert(w =~= v.push((path1@, path2@)));
        assert(w.to_set() =~= v.to_set().insert((path1@, path2@))) by {
            assert forall|x: (Seq<u8>, Seq<u8>)| w.contains(x) <==> v.contains(x) || x == (path1@, path2@) by {
                if w.contains(x) {
                    let j = choose|j: int| 0 <= j < w.len() && w[j] == x;
                    if j < v.len() {
                        assert(v[j] == x);
                    }
                }
                if v.contains(x) {
                    let j = choose|j: int| 0 <= j < v.len() && v[j] == x;
                    assert(w[j] == x);
                }
                if x == (path1@, path2@) {
                    assert(w[v.len() as int] == x);
                }
            }
        }
    }

    /// Two byte strings as a change, or nothing where they are equal.
    fn diff_bytes(&self, s1: &[u8], s2: &[u8]) -> (r: Option<StringDiff>)
        ensures
            opt_string_diff_view(r) == bytes_delta(s1@, s2@),
    {
        if bytes_equal(s1, s2) {
            None
        } else {
            Some(StringDiff { old: to_vec(s1), new: to_vec(s2) })
        }
    }

    fn diff_optional_bytes(&self, s1: &Option<Vec<u8>>, s2: &Option<Vec<u8>>) -> (r: Option<StringDiff>)
        ensures
            opt_string_diff_view(r) == opt_bytes_delta(opt_view(*s1), opt_view(*s2)),
    {
        match (s1, s2) {
            (Some(a), Some(b)) => self.diff_bytes(a.as_slice(), b.as_slice()),
            (None, None) => None,
            (Some(a), None) => Some(StringDiff { old: copy_bytes(a), new: Vec::new() }),
            (None, Some(b)) => Some(StringDiff { old: Vec::new(), new: copy_bytes(b) }),
        }
    }

    fn diff_outputs(&self, outputs1: &Vec<(Vec<u8>, Output)>, outputs2: &Vec<(Vec<u8>, Output)>) -> (r: OutputsDiff)
        ensures
            r@ == outputs_delta(outputs_view(outputs1@), outputs_view(outputs2@)),
            r is Identical <==> outputs_delta(outputs_view(outputs1@), outputs_view(outputs2@)).len() == 0,
    {
        let ghost a = outputs_view(outputs1@);
        let ghost b = outputs_view(outputs2@);
        let k1 = entry_keys(outputs1);
        let k2 = entry_keys(outputs2);
        assert(k1@.map_values(|k: &[u8]| k@) =~= keys_of(a));
        assert(k2@.map_values(|k: &[u8]| k@) =~= keys_of(b));
        let slots = align_keys(&k1, &k2);
        let ghost sv = slots_view(slots@);
        let mut diffs: Vec<OutputDiff> = Vec::new();
        let mut k: usize = 0;
        while k < slots.len()
            invariant
                k <= slots@.len(),
                sv == slots_view(slots@),
                sv == align(keys_of(a), keys_of(b), 0, 0),
                slots_in_range(sv, outputs1@.len() as int, outputs2@.len() as int),
                a == outputs_view(outputs1@),
                b == outputs_view(outputs2@),
                diffs@.map_values(|d: OutputDiff| d@) == flat(sv.take(k as int), output_piece(a, b)),
            decreases slots@.len() - k,
        {
            proof {
                lemma_flat_step(sv, output_piece(a, b), k as int);
            }
            let ghost before = diffs@.map_values(|d: OutputDiff| d@);
            assert(sv[k as int] == slot_view(slots@[k as int]));
            match slots[k] {
                (Some(i), Some(j)) => {
                    let o1 = &outputs1[i].1;
                    let o2 = &outputs2[j].1;
                    if !same_output(o1, o2) {
                        let d = OutputDiff {
                            name: copy_bytes(&outputs1[i].0),
                            diff: OutputDetailDiff::Changed {
                                old: copy_output(o1),
                                new: copy_output(o2),
                                path: self.diff_bytes(o1.path.as_slice(), o2.path.as_slice()),
                                hash_algo: self.diff_optional_bytes(&o1.hash_algorithm, &o2.hash_algorithm),
                                hash: self.diff_optional_bytes(&o1.hash, &o2.hash),
                            },
                        };
                        diffs.push(d);
                        assert(diffs@.map_values(|d: OutputDiff| d@) =~= before.push(d@));
                    } else {
                        assert(diffs@.map_values(|d: OutputDiff| d@) =~= before + Seq::<(Seq<u8>, crate::types::OutputDetailDiffView)>::empty());
                    }
                },
                (Some(i), None) => {
                    let d = OutputDiff {
                        name: copy_bytes(&outputs1[i].0),
                        diff: OutputDetailDiff::Removed(copy_output(&outputs1[i].1)),
                    };
                    diffs.push(d);
                    assert(diffs@.map_values(|d: OutputDiff| d@) =~= before.push(d@));
                },
                (None, Some(j)) => {
                    let d = OutputDiff {
                        name: copy_bytes(&outputs2[j].0),
                        diff: OutputDetailDiff::Added(copy_output(&outputs2[j].1)),
                    };
                    diffs.push(d);
                    assert(diffs@.map_values(|d: OutputDiff| d@) =~= before.push(d@));
                },
                (None, None) => {},
            }
            k = k + 1;
        }
        assert(sv.take(k as int) =~= sv);
        if diffs.len() == 0 {
            OutputsDiff::Identical
        } else {
            OutputsDiff::Changed(diffs)
        }
    }

    fn diff_environment(&self, env1: &Vec<(Vec<u8>, Vec<u8>)>, env2: &Vec<(Vec<u8>, Vec<u8>)>) -> (r: Option<EnvironmentDiff>)
        ensures
            match r {
                Some(d) => env_diff_view(d@) == env_delta(env_view(env1@), env_view(env2@))
                    && d@.len() > 0,
                None => env_delta(env_view(env1@), env_view(env2@)).len() == 0,
            },
    {
        let ghost a = env_view(env1@);
        let ghost b = env_view(env2@);
        let k1 = entry_keys(env1);
        let k2 = entry_keys(env2);
        assert(k1@.map_values(|k: &[u8]| k@) =~= keys_of(a));
        assert(k2@.map_values(|k: &[u8]| k@) =~= keys_of(b));
        let slots = align_keys(&k1, &k2);
        let ghost sv = slots_view(slots@);
        let mut diffs: EnvironmentDiff = Vec::new();
        let mut k: usize = 0;
        while k < slots.len()
            invariant
                k <= slots@.len(),
                sv == slots_view(slots@),
                sv == align(keys_of(a), keys_of(b), 0, 0),
                slots_in_range(sv, env1@.len() as int, env2@.len() as int),
                a == env_view(env1@),
                b == env_view(env2@),
                env_diff_view(diffs@) == flat(sv.take(k as int), env_piece(a, b)),
            decreases slots@.len() - k,
        {
            proof {
                lemma_flat_step(sv, env_piece(a, b), k as int);
            }
            let ghost before = env_diff_view(diffs@);
            assert(sv[k as int] == slot_view(slots@[k as int]));
            match slots[k] {
                (Some(i), Some(j)) => {
                    let v1 = &env1[i].1;
                    let v2 = &env2[j].1;
                    if !bytes_equal(v1.as_slice(), v2.as_slice()) {
                        let d = (
                            copy_bytes(&env1[i].0),
                            EnvVarDiff::Changed(StringDiff { old: copy_bytes(v1), new: copy_bytes(v2) }),
                        );
                        let ghost dv = (d.0@, d.1@);
                        diffs.push(d);
                        assert(env_diff_view(diffs@) =~= before.push(dv));
                    } else {
                        assert(env_diff_view(diffs@) =~= before + Seq::<(Seq<u8>, crate::types::EnvVarDiffView)>::empty());
                    }
                },
                (Some(i), None) => {
                    let d = (copy_bytes(&env1[i].0), EnvVarDiff::Removed(copy_bytes(&env1[i].1)));
                    let ghost dv = (d.0@, d.1@);
                    diffs.push(d);
                    assert(env_diff_view(diffs@) =~= before.push(dv));
                },
                (None, Some(j)) => {
                    let d = (copy_bytes(&env2[j].0), EnvVarDiff::Added(copy_bytes(&env2[j].1)));
                    let ghost dv = (d.0@, d.1@);
                    diffs.push(d);
                    assert(env_diff_view(diffs@) =~= before.push(dv));
                },
                (None, None) => {},
            }
            k = k + 1;
        }
        assert(sv.take(k as int) =~= sv);
        if diffs.len() == 0 {
            None
        } else {
            Some(diffs)
        }
    }

    /// Compares the arguments position by position up to the longer list's
    /// length, a missing argument counting as empty.
    fn diff_arguments(&self, args1: &Vec<Vec<u8>>, args2: &Vec<Vec<u8>>) -> (r: Option<ArgumentsDiff>)
        ensures
            match r {
                Some(d) => arguments_view(d@) == args_delta(seqs_view(args1@), seqs_view(args2@))
                    && d@.len() > 0,
                None => args_delta(seqs_view(args1@), seqs_view(args2@)).len() == 0,
            },
    {
        let ghost a = seqs_view(args1@);
        let ghost b = seqs_view(args2@);
        let n = if args1.len() >= args2.len() {
            args1.len()
        } else {
            args2.len()
        };
        let empty: Vec<u8> = Vec::new();
        let mut diffs: ArgumentsDiff = Vec::new();
        let mut i: usize = 0;
        while i < n
            invariant
                i <= n,
                n == if a.len() >= b.len() { a.len() } else { b.len() },
                a == seqs_view(args1@),
                b == seqs_view(args2@),
                empty@ == Seq::<u8>::empty(),
                forall|k: int| 0 <= k < diffs@.len() ==> diffs@[k].0 < i,
                arguments_view(diffs@) == args_delta_upto(a, b, i as nat),
            decreases n - i,
        {
            let x = if i < args1.len() {
                &args1[i]
            } else {
                &empty
            };
            let y = if i < args2.len() {
                &args2[i]
            } else {
                &empty
            };
            assert(x@ == arg_at(a, i as int));
            assert(y@ == arg_at(b, i as int));
            let ghost before = arguments_view(diffs@);
            if !bytes_equal(x.as_slice(), y.as_slice()) {
                let d = StringDiff { old: copy_bytes(x), new: copy_bytes(y) };
                diffs.push((i, d));
                assert(arguments_view(diffs@) =~= before + seq![(i as int, d@)]);
            } else {
                assert(arguments_view(diffs@) =~= before + Seq::<(int, crate::types::StringDiffView)>::empty());
            }
            i = i + 1;
        }
        if diffs.len() == 0 {
            None
        } else {
            Some(diffs)
        }
    }

    /// The shared sources whose contents differ between the two stores.
    fn diff_sources(&self, sources1: &Vec<Vec<u8>>, sources2: &Vec<Vec<u8>>) -> (r: Option<SourcesDiff>)
        ensures
            match r {
                Some(d) => d@ == sources_delta(
                    seqs_view(sources1@),
                    seqs_view(sources2@),
                    self.files1(),
                    self.files2(),
                    self.orientation(),
                ) && !sources_empty(d@),
                None => sources_empty(
                    sources_delta(
                        seqs_view(sources1@),
                        seqs_view(sources2@),
                        self.files1(),
                        self.files2(),
                        self.orientation(),
                    ),
                ),
            },
    {
        let ghost a = seqs_view(sources1@);
        let ghost b = seqs_view(sources2@);
        let ghost fs1 = self.files1();
        let ghost fs2 = self.files2();
        let ghost o = self.orientation();
        let k1 = member_keys(sources1);
        let k2 = member_keys(sources2);
        let (added, removed) = key_differences(&k1, &k2);
        let slots = align_keys(&k1, &k2);
        let ghost sv = slots_view(slots@);
        let mut common: Vec<SourceDiff> = Vec::new();
        let mut k: usize = 0;
        while k < slots.len()
            invariant
                k <= slots@.len(),
                sv == slots_view(slots@),
                sv == align(a, b, 0, 0),
                slots_in_range(sv, sources1@.len() as int, sources2@.len() as int),
                a == seqs_view(sources1@),
                fs1 == self.files1(),
                fs2 == self.files2(),
                o == self.orientation(),
                common@.map_values(|c: SourceDiff| c@) == flat(
                    sv.take(k as int),
                    source_piece(a, fs1, fs2, o),
                ),
            decreases slots@.len() - k,
        {
            proof {
                lemma_flat_step(sv, source_piece(a, fs1, fs2, o), k as int);
            }
            let ghost before = common@.map_values(|c: SourceDiff| c@);
            assert(sv[k as int] == slot_view(slots@[k as int]));
            let mut pushed = false;
            if let (Some(i), Some(_)) = slots[k] {
                let p = &sources1[i];
                assert(a[i as int] == p@);
                if let (Some(c1), Some(c2)) = (self.old_files.get(p.as_slice()), self.new_files.get(p.as_slice())) {
                    if !bytes_equal(c1.as_slice(), c2.as_slice()) {
                        let d = SourceDiff {
                            path: copy_bytes(p),
                            diff: diff_contents(c1.as_slice(), c2.as_slice(), self.orientation),
                        };
                        common.push(d);
                        pushed = true;
                        assert(common@.map_values(|c: SourceDiff| c@) =~= before.push(d@));
                    }
                }
            }
            if !pushed {
                assert(common@.map_values(|c: SourceDiff| c@) =~= before + Seq::<(Seq<u8>, TextDiffView)>::empty());
            }
            k = k + 1;
        }
        assert(sv.take(k as int) =~= sv);
        if added.len() == 0 && removed.len() == 0 && common.len() == 0 {
            None
        } else {
            Some(SourcesDiff { added, removed, common })
        }
    }

    /// The input derivations added, removed, and shared but different; each
    /// shared one whose two versions are available and differ is compared in
    /// turn.
    fn diff_inputs(&mut self, inputs1: &Vec<(Vec<u8>, Vec<Vec<u8>>)>, inputs2: &Vec<(Vec<u8>, Vec<Vec<u8>>)>) -> (r: Option<InputsDiff>)
        ensures
            final(self).files1() == old(self).files1(),
            final(self).files2() == old(self).files2(),
            final(self).orientation() == old(self).orientation(),
            old(self).compared().subset_of(final(self).compared()),
            match r {
                Some(ins) => inputs_hold(
                    ins,
                    inputs_view(inputs1@),
                    inputs_view(inputs2@),
                    old(self).files1(),
                    old(self).files2(),
                ) && !inputs_empty(
                    inputs_view(inputs1@),
                    inputs_view(inputs2@),
                    old(self).files1(),
                    old(self).files2(),
                ) && nested_hold(
                    ins.changed@,
                    old(self).files1(),
                    old(self).files2(),
                    old(self).orientation(),
                ),
                None => inputs_empty(
                    inputs_view(inputs1@),
                    inputs_view(inputs2@),
                    old(self).files1(),
                    old(self).files2(),
                ),
            },
            r matches Some(ins) ==> nested_nodes(ins.changed@, ins.changed@.len()).no_duplicates()
                && compared_between(
                nested_nodes(ins.changed@, ins.changed@.len()),
                old(self).compared(),
                final(self).compared(),
            ),
        decreases 4 * unvisited(old(self).files1().paths(), old(self).compared()) + 2,
    {
        let ghost a = inputs_view(inputs1@);
        let ghost b = inputs_view(inputs2@);
        let ghost fs1 = self.files1();
        let ghost fs2 = self.files2();
        let ghost o = self.orientation();
        let ghost m0 = self.compared();
        proof {
            fs1.lemma_paths(Seq::empty());
        }
        let k1 = entry_keys(inputs1);
        let k2 = entry_keys(inputs2);
        assert(k1@.map_values(|k: &[u8]| k@) =~= keys_of(a));
        assert(k2@.map_values(|k: &[u8]| k@) =~= keys_of(b));
        let (added_keys, removed_keys) = key_differences(&k1, &k2);
        let added = to_paths(added_keys);
        let removed = to_paths(removed_keys);
        let slots = align_keys(&k1, &k2);
        let ghost sv = slots_view(slots@);
        let mut changed: Vec<InputDiff> = Vec::new();
        let mut k: usize = 0;
        while k < slots.len()
            invariant
                k <= slots@.len(),
                sv == slots_view(slots@),
                sv == align(keys_of(a), keys_of(b), 0, 0),
                slots_in_range(sv, inputs1@.len() as int, inputs2@.len() as int),
                a == inputs_view(inputs1@),
                b == inputs_view(inputs2@),
                fs1 == self.files1(),
                fs2 == self.files2(),
                o == self.orientation(),
                fs1.paths().finite(),
                m0 == old(self).compared(),
                fs1 == old(self).files1(),
                m0.subset_of(self.compared()),
                changed@.map_values(|c: InputDiff| input_entry_view(c)) == flat(
                    sv.take(k as int),
                    input_piece(a, b, fs1, fs2),
                ),
                nested_hold(changed@, fs1, fs2, o),
                nested_nodes(changed@, changed@.len()).no_duplicates(),
                compared_between(nested_nodes(changed@, changed@.len()), m0, self.compared()),
            decreases slots@.len() - k,
        {
            proof {
                lemma_flat_step(sv, input_piece(a, b, fs1, fs2), k as int);
            }
            let ghost before = changed@.map_values(|c: InputDiff| input_entry_view(c));
            let ghost before_changed = changed@;
            assert(sv[k as int] == slot_view(slots@[k as int]));
            let mut pushed = false;
            if let (Some(i), Some(j)) = slots[k] {
                let p = &inputs1[i].0;
                assert(a[i as int].0 == p@);
                let outputs = diff_output_sets(&inputs1[i].1, &inputs2[j].1);
                let sub1 = load_sub(&self.old_files, p.as_slice());
                let sub2 = load_sub(&self.new_files, p.as_slice());
                let mut derivation: Option<Box<DerivationDiff>> = None;
                let ghost m_before = self.compared();
                let ghost prev_nodes = nested_nodes(changed@, changed@.len());
                if let (Some(d1), Some(d2)) = (sub1, sub2) {
                    if !d1.same_as(&d2) {
                        proof {
                            fs1.lemma_paths(p@);
                            lemma_unvisited_grows(fs1.paths(), m0, self.compared());
                        }
                        let nested = self.diff_derivations(p.as_slice(), p.as_slice(), &d1, &d2);
                        derivation = Some(Box::new(nested));
                    }
                }
                let ghost new_nodes = subtree_nodes(derivation, p@);
                assert(compared_between(new_nodes, m_before, self.compared()));
                assert(new_nodes.no_duplicates());
                assert(compared_between(prev_nodes, m0, self.compared()));
                proof {
                    vstd::seq_lib::lemma_no_dup_in_concat(prev_nodes, new_nodes);
                    assert forall|x: int| 0 <= x < prev_nodes.len() + new_nodes.len() implies (self.compared().contains(#[trigger] (prev_nodes + new_nodes)[x]) && !m0.contains((prev_nodes + new_nodes)[x])) by {
                        if x >= prev_nodes.len() {
                            assert((prev_nodes + new_nodes)[x] == new_nodes[x - prev_nodes.len()]);
                        }
                    }
                }
                if outputs.is_some() || derivation.is_some() {
                    let ghost before_seq = changed@;
                    let c = InputDiff { path: copy_bytes(p), outputs, derivation };
                    changed.push(c);
                    proof {
                        lemma_nested_nodes_prefix(before_seq, c, before_seq.len());
                        assert(changed@ == before_seq.push(c));
                        assert(nested_nodes(changed@, changed@.len()) == prev_nodes + new_nodes);
                    }
                    pushed = true;
                    assert(changed@.map_values(|c: InputDiff| input_entry_view(c)) =~= before.push(
                        input_entry_view(c),
                    ));
                    assert forall|x: int| 0 <= x < changed@.len() implies match #[trigger] changed@[x].derivation {
                        Some(d) => diff_holds(*d, fs1, fs2, o),
                        None => true,
                    } by {
                        if x < before_changed.len() {
                            assert(changed@[x] == before_changed[x]);
                        }
                    }
                }
            }
            if !pushed {
                assert(changed@.map_values(|c: InputDiff| input_entry_view(c)) =~= before + Seq::<(Seq<u8>, Option<OutputSetDiffView>, Option<(DerivationView, DerivationView)>)>::empty());
            }
            k = k + 1;
        }
        assert(sv.take(k as int) =~= sv);
        if added.len() == 0 && removed.len() == 0 && changed.len() == 0 {
            None
        } else {
            Some(InputsDiff { added, removed, changed })
        }
    }

    /// Compares two derivations, identified by `path1` and `path2`. A pair
    /// compared before in this session gives the identical diff at once; a
    /// new pair is recorded before its inputs are compared.
    pub fn diff_derivations(&mut self, path1: &[u8], path2: &[u8], drv1: &Derivation, drv2: &Derivation) -> (r: DerivationDiff)
        ensures
            final(self).files1() == old(self).files1(),
            final(self).files2() == old(self).files2(),
            final(self).orientation() == old(self).orientation(),
            old(self).compared().subset_of(final(self).compared()),
            final(self).compared().contains((path1@, path2@)),
            r.original@ == drv1@,
            r.new@ == drv2@,
            old(self).compared().contains((path1@, path2@)) ==> r.is_identical()
                && final(self).compared() == old(self).compared(),
            !old(self).compared().contains((path1@, path2@)) ==> top_holds(
                r,
                old(self).files1(),
                old(self).files2(),
                old(self).orientation(),
            ),
            diff_holds(r, old(self).files1(), old(self).files2(), old(self).orientation()),
            differing_nodes(r, (path1@, path2@)).no_duplicates(),
            compared_between(
                differing_nodes(r, (path1@, path2@)),
                old(self).compared(),
                final(self).compared(),
            ),
        decreases old(self).rank(path1@, path2@),
    {
        if self.has_compared(path1, path2) {
            return DerivationDiff {
                original: drv1.copy(),
                new: drv2.copy(),
                outputs: OutputsDiff::Identical,
                platform: None,
                builder: None,
                args: None,
                sources: None,
                inputs: None,
                env: None,
            };
        }
        let ghost m0 = self.compared();
        let ghost fs1 = self.files1();
        proof {
            fs1.lemma_paths(path1@);
        }
        self.record(path1, path2);
        proof {
            if path1@ == path2@ && fs1.paths().contains(path1@) {
                lemma_unvisited_visit(fs1.paths(), m0, path1@);
            } else {
                lemma_unvisited_grows(fs1.paths(), m0, self.compared());
            }
        }
        let outputs = self.diff_outputs(&drv1.outputs, &drv2.outputs);
        let platform = self.diff_bytes(drv1.platform.as_slice(), drv2.platform.as_slice());
        let builder = self.diff_bytes(drv1.builder.as_slice(), drv2.builder.as_slice());
        let args = self.diff_arguments(&drv1.args, &drv2.args);
        let sources = self.diff_sources(&drv1.input_sources, &drv2.input_sources);
        let inputs = self.diff_inputs(&drv1.input_derivations, &drv2.input_derivations);
        let env = self.diff_environment(&drv1.env, &drv2.env);
        let r = DerivationDiff {
            original: drv1.copy(),
            new: drv2.copy(),
            outputs,
            platform,
            builder,
            args,
            sources,
            inputs,
            env,
        };
        proof {
            let id = (path1@, path2@);
            if !r.is_identical() {
                let below = inputs_nodes(r.inputs);
                assert(below.no_duplicates());
                assert forall|x: int| 0 <= x < below.len() implies below[x] != id by {
                    assert(!m0.insert(id).contains(below[x]));
                }
                vstd::seq_lib::lemma_no_dup_in_concat(seq![id], below);
                assert(differing_nodes(r, id) == seq![id] + below);
                assert forall|x: int| 0 <= x < differing_nodes(r, id).len() implies (self.compared().contains(#[trigger] differing_nodes(r, id)[x]) && !m0.contains(differing_nodes(r, id)[x])) by {
                    if x > 0 {
                        assert(differing_nodes(r, id)[x] == below[x - 1]);
                    }
                }
            }
        }
        r
    }
}

/// The members of the second key list missing from the first, and those of
/// the first missing from the second, each in ascending order.
fn key_differences(k1: &Vec<&[u8]>, k2: &Vec<&[u8]>) -> (r: (Vec<Vec<u8>>, Vec<Vec<u8>>))
    ensures
        seqs_view(r.0@) == added_members(
            k1@.map_values(|k: &[u8]| k@),
            k2@.map_values(|k: &[u8]| k@),
        ),
        seqs_view(r.1@) == removed_members(
            k1@.map_values(|k: &[u8]| k@),
            k2@.map_values(|k: &[u8]| k@),
        ),
{
    let ghost a = k1@.map_values(|k: &[u8]| k@);
    let ghost b = k2@.map_values(|k: &[u8]| k@);
    let slots = align_keys(k1, k2);
    let ghost sv = slots_view(slots@);
    let mut added: Vec<Vec<u8>> = Vec::new();
    let mut removed: Vec<Vec<u8>> = Vec::new();
    let mut k: usize = 0;
    while k < slots.len()
        invariant
            k <= slots@.len(),
            sv == slots_view(slots@),
            sv == align(a, b, 0, 0),
            slots_in_range(sv, k1@.len() as int, k2@.len() as int),
            a == k1@.map_values(|k: &[u8]| k@),
            b == k2@.map_values(|k: &[u8]| k@),
            seqs_view(added@) == flat(sv.take(k as int), added_piece(b)),
            seqs_view(removed@) == flat(sv.take(k as int), removed_piece(a)),
        decreases slots@.len() - k,
    {
        proof {
            lemma_flat_step(sv, added_piece(b), k as int);
            lemma_flat_step(sv, removed_piece(a), k as int);
        }
        let ghost add0 = seqs_view(added@);
        let ghost rem0 = seqs_view(removed@);
        assert(sv[k as int] == slot_view(slots@[k as int]));
        match slots[k] {
            (None, Some(j)) => {
                added.push(to_vec(k2[j]));
                assert(seqs_view(added@) =~= add0.push(b[j as int]));
                assert(seqs_view(removed@) =~= rem0 + Seq::<Seq<u8>>::empty());
            },
            (Some(i), None) => {
                removed.push(to_vec(k1[i]));
                assert(seqs_view(removed@) =~= rem0.push(a[i as int]));
                assert(seqs_view(added@) =~= add0 + Seq::<Seq<u8>>::empty());
            },
            _ => {
                assert(seqs_view(removed@) =~= rem0 + Seq::<Seq<u8>>::empty());
                assert(seqs_view(added@) =~= add0 + Seq::<Seq<u8>>::empty());
            },
        }
        k = k + 1;
    }
    assert(sv.take(k as int) =~= sv);
    (added, removed)
}

/// The keys present in both key lists, in ascending order.
fn key_intersection(k1: &Vec<&[u8]>, k2: &Vec<&[u8]>, out: &mut Vec<Vec<u8>>)
    ensures
        seqs_view(final(out)@) == seqs_view(old(out)@) + common_members(
            k1@.map_values(|k: &[u8]| k@),
            k2@.map_values(|k: &[u8]| k@),
        ),
{
    let ghost a = k1@.map_values(|k: &[u8]| k@);
    let ghost b = k2@.map_values(|k: &[u8]| k@);
    let ghost start = seqs_view(out@);
    let slots = align_keys(k1, k2);
    let ghost sv = slots_view(slots@);
    let mut k: usize = 0;
    while k < slots.len()
        invariant
            k <= slots@.len(),
            sv == slots_view(slots@),
            sv == align(a, b, 0, 0),
            slots_in_range(sv, k1@.len() as int, k2@.len() as int),
            a == k1@.map_values(|k: &[u8]| k@),
            seqs_view(out@) == start + flat(sv.take(k as int), common_piece(a)),
        decreases slots@.len() - k,
    {
        proof {
            lemma_flat_step(sv, common_piece(a), k as int);
        }
        let ghost before = flat(sv.take(k as int), common_piece(a));
        assert(sv[k as int] == slot_view(slots@[k as int]));
        if let (Some(i), Some(_)) = slots[k] {
            let ghost o = seqs_view(out@);
            let v = to_vec(k1[i]);
            assert(v@ == a[i as int]);
            out.push(v);
            assert(seqs_view(out@) =~= o.push(a[i as int]));
            assert(seqs_view(out@) =~= start + before.push(a[i as int]));
            assert(before.push(a[i as int]) =~= before + seq![a[i as int]]);
        } else {
            assert(before + Seq::<Seq<u8>>::empty() =~= before);
        }
        k = k + 1;
    }
    assert(sv.take(k as int) =~= sv);
}

/// The files that a comparison of the two derivations reads at its top
/// level: the input sources of both, then the input derivations of both,
/// each in ascending order.
pub fn shared_references(drv1: &Derivation, drv2: &Derivation) -> (r: Vec<Vec<u8>>)
    ensures
        seqs_view(r@) == common_members(drv1@.input_sources, drv2@.input_sources) + common_members(
            keys_of(drv1@.input_derivations),
            keys_of(drv2@.input_derivations),
        ),
{
    let mut r: Vec<Vec<u8>> = Vec::new();
    assert(seqs_view(r@) =~= Seq::<Seq<u8>>::empty());
    let s1 = member_keys(&drv1.input_sources);
    let s2 = member_keys(&drv2.input_sources);
    key_intersection(&s1, &s2, &mut r);
    let i1 = entry_keys(&drv1.input_derivations);
    let i2 = entry_keys(&drv2.input_derivations);
    assert(i1@.map_values(|k: &[u8]| k@) =~= keys_of(drv1@.input_derivations));
    assert(i2@.map_values(|k: &[u8]| k@) =~= keys_of(drv2@.input_derivations));
    key_intersection(&i1, &i2, &mut r);
    assert(Seq::<Seq<u8>>::empty() + common_members(drv1@.input_sources, drv2@.input_sources) =~= common_members(drv1@.input_sources, drv2@.input_sources));
    r
}

/// The paths, each wrapped as a derivation path.
fn to_paths(keys: Vec<Vec<u8>>) -> (r: Vec<DerivationPath>)
    ensures
        paths_view(r@) == seqs_view(keys@),
{
    let mut r: Vec<DerivationPath> = Vec::new();
    let mut i: usize = 0;
    while i < keys.len()
        invariant
            i <= keys@.len(),
            paths_view(r@) == seqs_view(keys@.take(i as int)),
        decreases keys@.len() - i,
    {
        r.push(DerivationPath(copy_bytes(&keys[i])));
        assert(seqs_view(keys@.take(i + 1)) =~= seqs_view(keys@.take(i as int)).push(keys@[i as int]@));
        assert(paths_view(r@) =~= seqs_view(keys@.take(i + 1)));
        i = i + 1;
    }
    assert(keys@.take(i as int) =~= keys@);
    r
}

/// The output names requested on one side only.
fn diff_output_sets(s1: &Vec<Vec<u8>>, s2: &Vec<Vec<u8>>) -> (r: Option<OutputSetDiff>)
    ensures
        opt_output_set_view(r) == output_set_delta(seqs_view(s1@), seqs_view(s2@)),
{
    let k1 = member_keys(s1);
    let k2 = member_keys(s2);
    let (added, removed) = key_differences(&k1, &k2);
    if added.len() == 0 && removed.len() == 0 {
        None
    } else {
        Some(OutputSetDiff { added, removed })
    }
}

/// The derivation stored under `path`, where it is there and parses.
fn load_sub(files: &FileStore, path: &[u8]) -> (r: Option<Derivation>)
    ensures
        match r {
            Some(d) => sub_recipe(*files, path@) == Some(d@),
            None => sub_recipe(*files, path@) is None,
        },
{
    match files.get(path) {
        Some(bytes) => match parse_derivation_bytes(bytes.as_slice()) {
            Ok(d) => Some(d),
            Err(_) => None,
        },
        None => None,
    }
}

} // verus!
