//! Properties of the parser, the diff engine and the renderer, proved over
//! the spec functions that their contracts use.

use crate::bytes::lemma_bytes_lt_irreflexive;
use crate::delta::{
    added_piece, align, args_delta, args_delta_upto, bytes_delta, content_delta, env_delta,
    env_piece, flat, input_piece, output_piece, output_set_delta, outputs_delta, removed_piece,
    source_piece, sources_delta, sources_empty, sub_recipes_delta,
};
use crate::diff::{inputs_empty, top_holds};
use crate::grammar::{prepend, string_body, unescape, BACKSLASH, QUOTE};
use crate::parser::lemma_plain_run;
use crate::render::{
    bold, color_enabled, concat_map, first_change, first_change_from, green, line_text,
    lines_text, red, reset, shown, text_diff_text, yellow,
};
use crate::store::FileStore;
use crate::types::{
    keys_of, DerivationDiff, DerivationView, DiffLineView, DiffOrientation, ColorMode,
    EnvVarDiffView, TextDiffView, opt_string_diff_view,
};
use vstd::prelude::*;

verus! {

/// The bytes of a string literal's body that stands for `t`: newline, tab,
/// carriage return, backslash and quote written as escapes, every other byte
/// as itself.
pub open spec fn escaped(t: Seq<u8>) -> Seq<u8>
    decreases t.len(),
{
    if t.len() == 0 {
        Seq::empty()
    } else {
        let b = t[0];
        (if b == 10 {
            seq![BACKSLASH, 110u8]
        } else if b == 9 {
            seq![BACKSLASH, 116u8]
        } else if b == 13 {
            seq![BACKSLASH, 114u8]
        } else if b == BACKSLASH || b == QUOTE {
            seq![BACKSLASH, b]
        } else {
            seq![b]
        }) + escaped(t.drop_first())
    }
}

/// Escapes decode to the bytes they stand for: the body `escaped(t)` closed by
/// a quote decodes to exactly `t`, whatever follows.
pub proof fn lemma_escapes_decode(t: Seq<u8>, rest: Seq<u8>)
    ensures
        string_body(escaped(t) + seq![QUOTE] + rest, 0) == Some(
            (t, escaped(t).len() + 1int),
        ),
    decreases t.len(),
{
    let s = escaped(t) + seq![QUOTE] + rest;
    if t.len() == 0 {
        assert(s[0] == QUOTE);
    } else {
        let b = t[0];
        let head = if b == 10 {
            seq![BACKSLASH, 110u8]
        } else if b == 9 {
            seq![BACKSLASH, 116u8]
        } else if b == 13 {
            seq![BACKSLASH, 114u8]
        } else if b == BACKSLASH || b == QUOTE {
            seq![BACKSLASH, b]
        } else {
            seq![b]
        };
        let tail = escaped(t.drop_first());
        assert(escaped(t) == head + tail);
        lemma_escapes_decode(t.drop_first(), rest);
        let s2 = tail + seq![QUOTE] + rest;
        assert(s =~= head + s2);
        lemma_string_body_shift(head, s2, 0);
        if head.len() == 2 {
            assert(s[0] == BACKSLASH);
            assert(unescape(s[1]) == b);
            assert(string_body(s, 0) == prepend(seq![b], string_body(s, 2)));
        } else {
            assert(s[0] == b);
            assert(string_body(s, 0) == prepend(seq![b], string_body(s, 1)));
        }
        assert(seq![b] + t.drop_first() =~= t);
    }
}

/// Decoding after a prefix is decoding of what follows it, shifted.
proof fn lemma_string_body_shift(head: Seq<u8>, s2: Seq<u8>, i: int)
    requires
        0 <= i,
    ensures
        string_body(head + s2, head.len() + i) == match string_body(s2, i) {
            Some((x, e)) => Some((x, e + head.len())),
            None => None,
        },
    decreases s2.len() - i,
{
    let s = head + s2;
    let j = head.len() + i;
    if i < s2.len() {
        assert(s[j] == s2[i]);
        if s2[i] == BACKSLASH && i + 1 < s2.len() {
            assert(s[j + 1] == s2[i + 1]);
            lemma_string_body_shift(head, s2, i + 2);
        } else if s2[i] != QUOTE && s2[i] != BACKSLASH {
            lemma_string_body_shift(head, s2, i + 1);
        }
    }
}

/// A string without a backslash decodes to its bytes as they stand: the body
/// from `i` to the quote at `j` is copied verbatim.
pub proof fn lemma_unescaped_string_is_verbatim(s: Seq<u8>, i: int, j: int)
    requires
        0 <= i <= j < s.len(),
        s[j] == QUOTE,
        forall|k: int| i <= k < j ==> s[k] != QUOTE && s[k] != BACKSLASH,
    ensures
        string_body(s, i) == Some((s.subrange(i, j), j + 1)),
{
    lemma_plain_run(s, i, j);
    assert(s.subrange(i, j) + Seq::<u8>::empty() =~= s.subrange(i, j));
}

/// The slots of a key sequence aligned with itself pair each position with
/// itself.
pub proof fn lemma_align_self(k: Seq<Seq<u8>>, i: int)
    requires
        0 <= i <= k.len(),
    ensures
        align(k, k, i, i).len() == k.len() - i,
        forall|m: int| 0 <= m < k.len() - i ==> #[trigger] align(k, k, i, i)[m] == (i + m, i + m),
    decreases k.len() - i,
{
    if i < k.len() {
        lemma_bytes_lt_irreflexive(k[i]);
        lemma_align_self(k, i + 1);
        assert forall|m: int| 0 <= m < k.len() - i implies #[trigger] align(k, k, i, i)[m] == (
            i + m,
            i + m,
        ) by {
            if m > 0 {
                assert(align(k, k, i, i)[m] == align(k, k, i + 1, i + 1)[m - 1]);
            }
        }
    }
}

/// A flat of pieces that are all empty is empty.
pub proof fn lemma_flat_empty<T>(slots: Seq<(int, int)>, f: spec_fn((int, int)) -> Seq<T>)
    requires
        forall|m: int| 0 <= m < slots.len() ==> f(#[trigger] slots[m]).len() == 0,
    ensures
        flat(slots, f).len() == 0,
    decreases slots.len(),
{
    if slots.len() > 0 {
        lemma_flat_empty(slots.drop_last(), f);
        assert(f(slots[slots.len() - 1]).len() == 0);
    }
}

proof fn lemma_args_self(a: Seq<Seq<u8>>, n: nat)
    ensures
        args_delta_upto(a, a, n).len() == 0,
    decreases n,
{
    if n > 0 {
        lemma_args_self(a, (n - 1) as nat);
    }
}

/// Every field diff of a derivation against itself, read through two stores
/// with the same contents, is empty.
pub proof fn lemma_deltas_of_self(d: DerivationView, fs: FileStore, gs: FileStore, o: DiffOrientation)
    requires
        forall|p: Seq<u8>| #[trigger] fs.contents(p) == gs.contents(p),
    ensures
        outputs_delta(d.outputs, d.outputs).len() == 0,
        bytes_delta(d.platform, d.platform) is None,
        bytes_delta(d.builder, d.builder) is None,
        args_delta(d.args, d.args).len() == 0,
        sources_empty(sources_delta(d.input_sources, d.input_sources, fs, gs, o)),
        inputs_empty(d.input_derivations, d.input_derivations, fs, gs),
        env_delta(d.env, d.env).len() == 0,
{
    let ko = keys_of(d.outputs);
    lemma_align_self(ko, 0);
    lemma_flat_empty(align(ko, ko, 0, 0), output_piece(d.outputs, d.outputs));
    let ke = keys_of(d.env);
    lemma_align_self(ke, 0);
    lemma_flat_empty(align(ke, ke, 0, 0), env_piece(d.env, d.env));
    lemma_args_self(d.args, if d.args.len() >= d.args.len() {
        d.args.len()
    } else {
        d.args.len()
    });
    let ks = d.input_sources;
    lemma_align_self(ks, 0);
    lemma_flat_empty(align(ks, ks, 0, 0), added_piece(ks));
    lemma_flat_empty(align(ks, ks, 0, 0), removed_piece(ks));
    assert forall|m: int| 0 <= m < align(ks, ks, 0, 0).len() implies (source_piece(ks, fs, gs, o))(
        #[trigger] align(ks, ks, 0, 0)[m],
    ).len() == 0 by {
        assert(fs.contents(ks[m]) == gs.contents(ks[m]));
    }
    lemma_flat_empty(align(ks, ks, 0, 0), source_piece(ks, fs, gs, o));
    let ki = keys_of(d.input_derivations);
    lemma_align_self(ki, 0);
    lemma_flat_empty(align(ki, ki, 0, 0), added_piece(ki));
    lemma_flat_empty(align(ki, ki, 0, 0), removed_piece(ki));
    assert forall|m: int| 0 <= m < align(ki, ki, 0, 0).len() implies (input_piece(
        d.input_derivations,
        d.input_derivations,
        fs,
        gs,
    ))(#[trigger] align(ki, ki, 0, 0)[m]).len() == 0 by {
        assert(fs.contents(d.input_derivations[m].0) == gs.contents(d.input_derivations[m].0));
        let s = d.input_derivations[m].1;
        lemma_align_self(s, 0);
        lemma_flat_empty(align(s, s, 0, 0), added_piece(s));
        lemma_flat_empty(align(s, s, 0, 0), removed_piece(s));
        assert(output_set_delta(s, s) is None);
        assert(sub_recipes_delta(fs, gs, d.input_derivations[m].0) is None);
    }
    lemma_flat_empty(align(ki, ki, 0, 0), input_piece(d.input_derivations, d.input_derivations, fs, gs));
}

/// Diff identity: a diff of a derivation against itself, the two sides read
/// through stores with the same contents, that compares its pair in full
/// reports no difference at all.
pub proof fn lemma_diff_identity(r: DerivationDiff, fs: FileStore, gs: FileStore, o: DiffOrientation)
    requires
        r.original@ == r.new@,
        forall|p: Seq<u8>| #[trigger] fs.contents(p) == gs.contents(p),
        top_holds(r, fs, gs, o),
    ensures
        r.is_identical(),
{
    lemma_deltas_of_self(r.original@, fs, gs, o);
    assert(opt_string_diff_view(r.platform) is None ==> r.platform is None);
    assert(opt_string_diff_view(r.builder) is None ==> r.builder is None);
}

/// A NUL byte on either side makes a content diff binary, whatever else the
/// contents hold.
pub proof fn lemma_nul_means_binary(a: Seq<u8>, b: Seq<u8>, o: DiffOrientation)
    requires
        a.contains(0u8) || b.contains(0u8),
    ensures
        content_delta(a, b, o) == TextDiffView::Binary,
{
}

/// Color suppression: the `NO_COLOR` signal turns color off whatever the
/// mode, `Never` turns it off whatever the signal, and `Always` without the
/// signal turns it on; without color every escape sequence is empty, with
/// color each starts with the escape byte.
pub proof fn lemma_color_suppression(is_terminal: bool, mode: ColorMode, signal: bool)
    ensures
        !color_enabled(mode, true, is_terminal),
        !color_enabled(ColorMode::Never, signal, is_terminal),
        color_enabled(ColorMode::Always, false, is_terminal),
        red(false).len() == 0 && green(false).len() == 0 && yellow(false).len() == 0,
        bold(false).len() == 0 && reset(false).len() == 0,
        red(true)[0] == 27 && green(true)[0] == 27 && yellow(true)[0] == 27,
        bold(true)[0] == 27 && reset(true)[0] == 27,
{
}

/// Every piece before the first change is context.
pub proof fn lemma_first_change_context(lines: Seq<DiffLineView>, k: int)
    requires
        0 <= k,
    ensures
        k <= first_change_from(lines, k) <= lines.len() || k > lines.len(),
        forall|j: int| k <= j < first_change_from(lines, k) ==> #[trigger] lines[j] is Context,
    decreases lines.len() - k,
{
    if k < lines.len() && lines[k] is Context {
        lemma_first_change_context(lines, k + 1);
    }
}

pub open spec fn piece_text(indent: usize, c: bool) -> spec_fn(DiffLineView) -> Seq<u8> {
    |l: DiffLineView| line_text(l, indent, c)
}

/// Context window: a content diff shows every piece from `n` pieces before
/// its first change on, and nothing before that; all the pieces before the
/// first change are context.
pub proof fn lemma_context_window(lines: Seq<DiffLineView>, indent: usize, c: bool, n: nat)
    ensures
        text_diff_text(TextDiffView::Text(lines), indent, c, n) == concat_map(
            lines.subrange(
                if first_change(lines) >= n {
                    first_change(lines) - n
                } else {
                    0
                },
                lines.len() as int,
            ),
            piece_text(indent, c),
        ),
        forall|j: int| 0 <= j < first_change(lines) ==> #[trigger] lines[j] is Context,
{
    lemma_first_change_context(lines, 0);
    let f = first_change(lines);
    let start = if f >= n {
        f - n
    } else {
        0
    };
    lemma_lines_window(lines, lines.len(), indent, c, n, start);
}

proof fn lemma_lines_window(lines: Seq<DiffLineView>, k: nat, indent: usize, c: bool, n: nat, start: int)
    requires
        k <= lines.len(),
        0 <= start <= first_change(lines) <= lines.len(),
        start == if first_change(lines) >= n {
            first_change(lines) - n
        } else {
            0
        },
    ensures
        lines_text(lines, k, indent, c, n) == if k >= start {
            concat_map(lines.subrange(start, k as int), piece_text(indent, c))
        } else {
            Seq::empty()
        },
    decreases k,
{
    if k > 0 {
        lemma_lines_window(lines, (k - 1) as nat, indent, c, n, start);
        let j = k - 1;
        assert(shown(lines, j, n) == (j >= start));
        if k - 1 >= start {
            let sub = lines.subrange(start, k as int);
            assert(sub.drop_last() =~= lines.subrange(start, k - 1));
            assert(sub.last() == lines[j]);
        } else if k == start {
            assert(lines.subrange(start, k as int) =~= Seq::<DiffLineView>::empty());
        }
    } else if start == 0 {
        assert(lines.subrange(0, 0) =~= Seq::<DiffLineView>::empty());
    }
}

pub proof fn lemma_flat_cons<T>(x: (int, int), rest: Seq<(int, int)>, f: spec_fn((int, int)) -> Seq<T>)
    ensures
        flat(seq![x] + rest, f) == f(x) + flat(rest, f),
    decreases rest.len(),
{
    if rest.len() == 0 {
        let s = seq![x] + rest;
        assert(s.drop_last() =~= Seq::<(int, int)>::empty());
        assert(s.last() == x);
        assert(flat(s, f) == flat(s.drop_last(), f) + f(s.last()));
        assert(flat(rest, f) == Seq::<T>::empty());
        assert(f(x) + Seq::<T>::empty() =~= f(x));
        assert(Seq::<T>::empty() + f(x) =~= f(x));
    } else {
        lemma_flat_cons(x, rest.drop_last(), f);
        assert((seq![x] + rest).drop_last() =~= seq![x] + rest.drop_last());
        assert((seq![x] + rest).last() == rest.last());
        assert(flat(seq![x] + rest, f) == flat((seq![x] + rest).drop_last(), f) + f((seq![x] + rest).last()));
        assert(flat(rest, f) == flat(rest.drop_last(), f) + f(rest.last()));
        assert(f(x) + flat(rest.drop_last(), f) + f(rest.last()) =~= f(x) + (flat(rest.drop_last(), f) + f(rest.last())));
    }
}

/// Past the inserted entry, each entry of `a` meets its copy one place
/// further on in `b`.
proof fn lemma_env_after(a: Seq<(Seq<u8>, Seq<u8>)>, b: Seq<(Seq<u8>, Seq<u8>)>, p: int, kv: (Seq<u8>, Seq<u8>), j: int, forward: bool)
    requires
        0 <= p <= j <= a.len(),
        b == a.insert(p, kv),
    ensures
        forward ==> flat(align(keys_of(a), keys_of(b), j, j + 1), env_piece(a, b)).len() == 0,
        !forward ==> flat(align(keys_of(b), keys_of(a), j + 1, j), env_piece(b, a)).len() == 0,
    decreases a.len() - j,
{
    let ka = keys_of(a);
    let kb = keys_of(b);
    if j < a.len() {
        lemma_env_after(a, b, p, kv, j + 1, forward);
        assert(kb[j + 1] == ka[j]);
        lemma_bytes_lt_irreflexive(ka[j]);
        if forward {
            lemma_flat_cons((j, j + 1), align(ka, kb, j + 1, j + 2), env_piece(a, b));
        } else {
            lemma_flat_cons((j + 1, j), align(kb, ka, j + 2, j + 1), env_piece(b, a));
        }
    }
}

/// Up to the inserted entry, each entry meets itself; the inserted one has no
/// partner.
proof fn lemma_env_before(a: Seq<(Seq<u8>, Seq<u8>)>, b: Seq<(Seq<u8>, Seq<u8>)>, p: int, k: Seq<u8>, v: Seq<u8>, i: int, forward: bool)
    requires
        0 <= i <= p <= a.len(),
        b == a.insert(p, (k, v)),
        crate::types::strictly_sorted(keys_of(b)),
    ensures
        forward ==> flat(align(keys_of(a), keys_of(b), i, i), env_piece(a, b)) == seq![
            (k, EnvVarDiffView::Added(v)),
        ],
        !forward ==> flat(align(keys_of(b), keys_of(a), i, i), env_piece(b, a)) == seq![
            (k, EnvVarDiffView::Removed(v)),
        ],
    decreases p - i,
{
    let ka = keys_of(a);
    let kb = keys_of(b);
    if i < p {
        lemma_env_before(a, b, p, k, v, i + 1, forward);
        assert(kb[i] == ka[i]);
        lemma_bytes_lt_irreflexive(ka[i]);
        if forward {
            lemma_flat_cons((i, i), align(ka, kb, i + 1, i + 1), env_piece(a, b));
            assert(Seq::<(Seq<u8>, EnvVarDiffView)>::empty() + seq![(k, EnvVarDiffView::Added(v))] =~= seq![(k, EnvVarDiffView::Added(v))]);
        } else {
            lemma_flat_cons((i, i), align(kb, ka, i + 1, i + 1), env_piece(b, a));
            assert(Seq::<(Seq<u8>, EnvVarDiffView)>::empty() + seq![(k, EnvVarDiffView::Removed(v))] =~= seq![(k, EnvVarDiffView::Removed(v))]);
        }
    } else {
        assert(kb[p] == k);
        if p < a.len() {
            assert(kb[p + 1] == ka[p]);
            assert(crate::bytes::bytes_lt(kb[p], kb[p + 1]));
            crate::bytes::lemma_bytes_lt_asymmetric(k, ka[p]);
        }
        lemma_env_after(a, b, p, (k, v), p, forward);
        if forward {
            lemma_flat_cons((-1, p), align(ka, kb, p, p + 1), env_piece(a, b));
            assert(seq![(k, EnvVarDiffView::Added(v))] + Seq::<(Seq<u8>, EnvVarDiffView)>::empty() =~= seq![(k, EnvVarDiffView::Added(v))]);
        } else {
            lemma_flat_cons((p, -1), align(kb, ka, p + 1, p), env_piece(b, a));
            assert(seq![(k, EnvVarDiffView::Removed(v))] + Seq::<(Seq<u8>, EnvVarDiffView)>::empty() =~= seq![(k, EnvVarDiffView::Removed(v))]);
        }
    }
}

/// Added and removed are mirror images: where `b` is `a` with one more
/// environment variable and nothing else changed, the diff of `a` against
/// `b` reports that variable as added and nothing else, and the diff of `b`
/// against `a` reports it as removed and nothing else.
pub proof fn lemma_added_variable(
    a: DerivationView,
    b: DerivationView,
    p: int,
    k: Seq<u8>,
    v: Seq<u8>,
    fs: FileStore,
    o: DiffOrientation,
    r1: DerivationDiff,
    r2: DerivationDiff,
)
    requires
        0 <= p <= a.env.len(),
        b == (DerivationView { env: a.env.insert(p, (k, v)), ..a }),
        b.wf(),
        r1.original@ == a,
        r1.new@ == b,
        top_holds(r1, fs, fs, o),
        r2.original@ == b,
        r2.new@ == a,
        top_holds(r2, fs, fs, o),
    ensures
        r1.env matches Some(e) && crate::types::env_diff_view(e@) == seq![(k, EnvVarDiffView::Added(v))],
        r2.env matches Some(e) && crate::types::env_diff_view(e@) == seq![(k, EnvVarDiffView::Removed(v))],
        r1.outputs is Identical && r1.platform is None && r1.builder is None && r1.args is None,
        r1.sources is None && r1.inputs is None,
        r2.outputs is Identical && r2.platform is None && r2.builder is None && r2.args is None,
        r2.sources is None && r2.inputs is None,
{
    lemma_deltas_of_self(a, fs, fs, o);
    lemma_env_before(a.env, b.env, p, k, v, 0, true);
    lemma_env_before(a.env, b.env, p, k, v, 0, false);
    assert(opt_string_diff_view(r1.platform) is None ==> r1.platform is None);
    assert(opt_string_diff_view(r1.builder) is None ==> r1.builder is None);
    assert(opt_string_diff_view(r2.platform) is None ==> r2.platform is None);
    assert(opt_string_diff_view(r2.builder) is None ==> r2.builder is None);
}

} // verus!
