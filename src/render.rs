//! The renderer: the diff tree as indented, optionally colored text.

use crate::bytes::{append_bytes, contains_byte};
use crate::delta::line_changes;
use crate::diff::line_diff;
use crate::types::{
    arguments_view, env_diff_view, opt_string_diff_view, paths_view, seqs_view, ColorMode,
    DerivationDiff, DerivationPath, DiffLine, DiffLineView, EnvVarDiff, EnvVarDiffView, InputDiff, InputsDiff,
    OutputDetailDiff, OutputDetailDiffView, OutputDiff, OutputsDiff, OutputSetDiff, OutputSetDiffView,
    SourceDiff, SourcesDiff, SourcesDiffView, StringDiff, StringDiffView, TextDiff, TextDiffView,
};
use vstd::prelude::*;
use vstd::string::StringSliceAdditionalSpecFns;

verus! {

pub const NEWLINE: u8 = 10;

/// Whether output is colored: never under the `NO_COLOR` signal, otherwise as
/// the mode says, `Auto` coloring only a terminal.
pub open spec fn color_enabled(mode: ColorMode, no_color: bool, is_terminal: bool) -> bool {
    !no_color && match mode {
        ColorMode::Always => true,
        ColorMode::Auto => is_terminal,
        ColorMode::Never => false,
    }
}

pub open spec fn lit(s: &str) -> Seq<u8> {
    s.spec_bytes()
}

pub open spec fn spaces(n: usize) -> Seq<u8> {
    Seq::new(n as nat, |i: int| 32u8)
}

/// `indent + k`, held at the largest `usize`.
pub open spec fn deeper(indent: usize, k: usize) -> usize {
    if indent + k > usize::MAX {
        usize::MAX
    } else {
        (indent + k) as usize
    }
}

/// The escape sequence `ESC [ code m`, or nothing without color.
pub open spec fn escape(code: Seq<u8>, color: bool) -> Seq<u8> {
    if color {
        seq![27u8, 91u8] + code + seq![109u8]
    } else {
        Seq::empty()
    }
}

pub open spec fn red(c: bool) -> Seq<u8> {
    escape(seq![51u8, 49u8], c)
}

pub open spec fn green(c: bool) -> Seq<u8> {
    escape(seq![51u8, 50u8], c)
}

pub open spec fn yellow(c: bool) -> Seq<u8> {
    escape(seq![51u8, 51u8], c)
}

pub open spec fn bold(c: bool) -> Seq<u8> {
    escape(seq![49u8], c)
}

pub open spec fn reset(c: bool) -> Seq<u8> {
    escape(seq![48u8], c)
}

/// The decimal digits of `n`.
pub open spec fn decimal(n: nat) -> Seq<u8>
    decreases n,
{
    if n < 10 {
        seq![(48 + n) as u8]
    } else {
        decimal(n / 10) + seq![(48 + n % 10) as u8]
    }
}

/// One colored line: indent, color, prefix, text, reset, newline.
pub open spec fn line(indent: usize, open: Seq<u8>, prefix: Seq<u8>, text: Seq<u8>, c: bool) -> Seq<u8> {
    spaces(indent) + open + prefix + text + reset(c) + seq![NEWLINE]
}

/// A bold section header.
pub open spec fn section(title: Seq<u8>, indent: usize, c: bool) -> Seq<u8> {
    spaces(indent) + bold(c) + title + lit(":") + reset(c) + seq![NEWLINE]
}

/// A changed value: the old one in red, then the new one in green.
pub open spec fn string_diff_text(d: StringDiffView, indent: usize, c: bool) -> Seq<u8> {
    line(indent, red(c), lit("- "), d.old, c) + line(indent, green(c), lit("+ "), d.new, c)
}

/// The pieces that `f` gives for each element, one after the other.
pub open spec fn concat_map<T>(s: Seq<T>, f: spec_fn(T) -> Seq<u8>) -> Seq<u8>
    decreases s.len(),
{
    if s.len() == 0 {
        Seq::empty()
    } else {
        concat_map(s.drop_last(), f) + f(s.last())
    }
}

pub proof fn lemma_concat_map_step<T>(s: Seq<T>, f: spec_fn(T) -> Seq<u8>, k: int)
    requires
        0 <= k < s.len(),
    ensures
        concat_map(s.take(k + 1), f) == concat_map(s.take(k), f) + f(s[k]),
{
    assert(s.take(k + 1).drop_last() =~= s.take(k));
}

/// The position of the first piece from `k` on that is not context.
pub open spec fn first_change_from(lines: Seq<DiffLineView>, k: int) -> int
    decreases lines.len() - k,
{
    if k < 0 || k >= lines.len() {
        lines.len() as int
    } else if lines[k] is Context {
        first_change_from(lines, k + 1)
    } else {
        k
    }
}

pub open spec fn first_change(lines: Seq<DiffLineView>) -> int {
    first_change_from(lines, 0)
}

pub open spec fn line_text(l: DiffLineView, indent: usize, c: bool) -> Seq<u8> {
    match l {
        DiffLineView::Context(t) => spaces(indent) + lit("  ") + t,
        DiffLineView::Added(t) => spaces(indent) + green(c) + lit("+ ") + t + reset(c),
        DiffLineView::Removed(t) => spaces(indent) + red(c) + lit("- ") + t + reset(c),
    }
}

/// Whether the piece at `k` is shown: context before the first change only
/// within `n` pieces of it, everything from the first change on.
pub open spec fn shown(lines: Seq<DiffLineView>, k: int, n: nat) -> bool {
    k >= first_change(lines) || k + n >= first_change(lines)
}

/// The first `k` pieces of a content diff as text.
pub open spec fn lines_text(lines: Seq<DiffLineView>, k: nat, indent: usize, c: bool, n: nat) -> Seq<u8>
    decreases k,
{
    if k == 0 {
        Seq::empty()
    } else {
        lines_text(lines, (k - 1) as nat, indent, c, n) + if shown(lines, k - 1, n) {
            line_text(lines[k - 1], indent, c)
        } else {
            Seq::empty()
        }
    }
}

/// A content diff as text, with `n` lines of leading context.
pub open spec fn text_diff_text(t: TextDiffView, indent: usize, c: bool, n: nat) -> Seq<u8> {
    match t {
        TextDiffView::Binary => spaces(indent) + yellow(c) + lit("Binary files differ") + reset(c)
            + seq![NEWLINE],
        TextDiffView::Text(lines) => lines_text(lines, lines.len(), indent, c, n),
    }
}

/// A value spanning several lines.
pub open spec fn is_multiline(d: StringDiffView) -> bool {
    d.old.contains(NEWLINE) || d.new.contains(NEWLINE)
}

/// A changed value: a line diff where it spans several lines, the old and
/// the new value otherwise.
pub open spec fn changed_value_text(d: StringDiffView, indent: usize, c: bool, n: nat) -> Seq<u8> {
    if is_multiline(d) {
        text_diff_text(TextDiffView::Text(line_changes(d.old, d.new)), indent, c, n)
    } else {
        string_diff_text(d, indent, c)
    }
}

pub open spec fn opt_field_text(d: Option<StringDiffView>, label: Seq<u8>, indent: usize, c: bool) -> Seq<u8> {
    match d {
        Some(x) => spaces(deeper(indent, 2)) + label + string_diff_text(x, deeper(indent, 4), c),
        None => Seq::empty(),
    }
}

pub open spec fn output_detail_text(d: OutputDetailDiffView, indent: usize, c: bool) -> Seq<u8> {
    match d {
        OutputDetailDiffView::Added(o) => line(deeper(indent, 2), green(c), lit("+ Added: "), o.path, c),
        OutputDetailDiffView::Removed(o) => line(deeper(indent, 2), red(c), lit("- Removed: "), o.path, c),
        OutputDetailDiffView::Changed { path, hash_algo, hash, .. } => opt_field_text(
            path,
            lit("Path:\n"),
            indent,
            c,
        ) + opt_field_text(hash_algo, lit("Hash algorithm:\n"), indent, c) + opt_field_text(
            hash,
            lit("Hash:\n"),
            indent,
            c,
        ),
    }
}

pub open spec fn output_text(indent: usize, c: bool) -> spec_fn((Seq<u8>, OutputDetailDiffView)) -> Seq<u8> {
    |e: (Seq<u8>, OutputDetailDiffView)|
        spaces(indent) + lit("Output '") + e.0 + lit("':\n") + output_detail_text(e.1, indent, c)
}

pub open spec fn argument_text(indent: usize, c: bool, n: nat) -> spec_fn((int, StringDiffView)) -> Seq<u8> {
    |e: (int, StringDiffView)|
        spaces(deeper(indent, 2)) + lit("Argument ") + decimal(e.0 as nat) + lit(":\n")
            + changed_value_text(e.1, deeper(indent, 4), c, n)
}

pub open spec fn env_var_text(d: EnvVarDiffView, indent: usize, c: bool, n: nat) -> Seq<u8> {
    match d {
        EnvVarDiffView::Added(v) => line(indent, green(c), lit("+ "), v, c),
        EnvVarDiffView::Removed(v) => line(indent, red(c), lit("- "), v, c),
        EnvVarDiffView::Changed(sd) => changed_value_text(sd, indent, c, n),
    }
}

pub open spec fn env_text(indent: usize, c: bool, n: nat) -> spec_fn((Seq<u8>, EnvVarDiffView)) -> Seq<u8> {
    |e: (Seq<u8>, EnvVarDiffView)|
        spaces(deeper(indent, 2)) + e.0 + lit(":\n") + env_var_text(e.1, deeper(indent, 4), c, n)
}

pub open spec fn line_fn(indent: usize, open: Seq<u8>, prefix: Seq<u8>, c: bool) -> spec_fn(Seq<u8>) -> Seq<u8> {
    |p: Seq<u8>| line(indent, open, prefix, p, c)
}

pub open spec fn removed_line(indent: usize, c: bool) -> spec_fn(Seq<u8>) -> Seq<u8> {
    line_fn(indent, red(c), lit("- "), c)
}

pub open spec fn added_line(indent: usize, c: bool) -> spec_fn(Seq<u8>) -> Seq<u8> {
    line_fn(indent, green(c), lit("+ "), c)
}

pub open spec fn source_text(indent: usize, c: bool, n: nat) -> spec_fn((Seq<u8>, TextDiffView)) -> Seq<u8> {
    |e: (Seq<u8>, TextDiffView)|
        line(deeper(indent, 2), yellow(c), lit("~ "), e.0, c) + text_diff_text(e.1, deeper(indent, 4), c, n)
}

pub open spec fn sources_text(d: SourcesDiffView, indent: usize, c: bool, n: nat) -> Seq<u8> {
    section(lit("Sources"), indent, c) + concat_map(d.removed, removed_line(deeper(indent, 2), c))
        + concat_map(d.added, added_line(deeper(indent, 2), c)) + concat_map(
        d.common,
        source_text(indent, c, n),
    )
}

pub open spec fn output_set_text(d: OutputSetDiffView, indent: usize, c: bool) -> Seq<u8> {
    concat_map(d.removed, removed_line(indent, c)) + concat_map(d.added, added_line(indent, c))
}

/// The first `k` changed input derivations as text, nested diffs included.
pub open spec fn changed_text(changed: Seq<InputDiff>, k: nat, indent: usize, c: bool, n: nat) -> Seq<u8>
    decreases changed, k,
{
    if k == 0 || k > changed.len() {
        Seq::empty()
    } else {
        let e = changed[k - 1];
        changed_text(changed, (k - 1) as nat, indent, c, n) + line(
            deeper(indent, 2),
            yellow(c),
            lit("~ "),
            e.path@,
            c,
        ) + match e.outputs {
            Some(os) => spaces(deeper(indent, 4)) + lit("Output changes:\n") + output_set_text(
                os@,
                deeper(indent, 6),
                c,
            ),
            None => Seq::empty(),
        } + match e.derivation {
            Some(b) => diff_text(*b, deeper(indent, 4), c, n),
            None => Seq::empty(),
        }
    }
}

pub open spec fn inputs_text(ins: InputsDiff, indent: usize, c: bool, n: nat) -> Seq<u8>
    decreases ins, 0nat,
{
    section(lit("Input derivations"), indent, c) + concat_map(
        paths_view(ins.removed@),
        removed_line(deeper(indent, 2), c),
    ) + concat_map(paths_view(ins.added@), added_line(deeper(indent, 2), c)) + changed_text(
        ins.changed@,
        ins.changed@.len(),
        indent,
        c,
        n,
    )
}

pub open spec fn outputs_part(r: DerivationDiff, indent: usize, c: bool) -> Seq<u8> {
    if r.outputs is Changed {
        section(lit("Outputs"), indent, c) + concat_map(r.outputs@, output_text(deeper(indent, 2), c))
    } else {
        Seq::empty()
    }
}

pub open spec fn value_part(title: Seq<u8>, d: Option<StringDiffView>, indent: usize, c: bool) -> Seq<u8> {
    match d {
        Some(x) => section(title, indent, c) + string_diff_text(x, deeper(indent, 2), c),
        None => Seq::empty(),
    }
}

pub open spec fn args_part(r: DerivationDiff, indent: usize, c: bool, n: nat) -> Seq<u8> {
    match r.args {
        Some(a) => section(lit("Arguments"), indent, c) + concat_map(
            arguments_view(a@),
            argument_text(indent, c, n),
        ),
        None => Seq::empty(),
    }
}

pub open spec fn sources_part(r: DerivationDiff, indent: usize, c: bool, n: nat) -> Seq<u8> {
    match r.sources {
        Some(s) => sources_text(s@, indent, c, n),
        None => Seq::empty(),
    }
}

pub open spec fn inputs_part(r: DerivationDiff, indent: usize, c: bool, n: nat) -> Seq<u8>
    decreases r, 0nat,
{
    match r.inputs {
        Some(ins) => inputs_text(ins, indent, c, n),
        None => Seq::empty(),
    }
}

pub open spec fn env_part(r: DerivationDiff, indent: usize, c: bool, n: nat) -> Seq<u8> {
    match r.env {
        Some(e) => section(lit("Environment"), indent, c) + concat_map(
            env_diff_view(e@),
            env_text(indent, c, n),
        ),
        None => Seq::empty(),
    }
}

/// A derivation diff as text: one section per field that differs, nested
/// diffs further indented.
pub open spec fn diff_text(r: DerivationDiff, indent: usize, c: bool, n: nat) -> Seq<u8>
    decreases r, 1nat,
{
    outputs_part(r, indent, c) + value_part(
        lit("Platform"),
        opt_string_diff_view(r.platform),
        indent,
        c,
    ) + value_part(lit("Builder"), opt_string_diff_view(r.builder), indent, c) + args_part(
        r,
        indent,
        c,
        n,
    ) + sources_part(r, indent, c, n) + inputs_part(r, indent, c, n) + env_part(r, indent, c, n)
}

/// The whole output for a diff: its text, or a notice where it shows nothing.
pub open spec fn rendered(r: DerivationDiff, c: bool, n: nat) -> Seq<u8> {
    if diff_text(r, 0, c, n).len() == 0 {
        lit("The derivations are identical.\n")
    } else {
        diff_text(r, 0, c, n)
    }
}

/// Whether to color output: never under the `NO_COLOR` signal, otherwise as
/// the mode says, `Auto` coloring only a terminal.
pub fn should_use_color(mode: ColorMode, no_color: bool, is_terminal: bool) -> (r: bool)
    ensures
        r == color_enabled(mode, no_color, is_terminal),
{
    if no_color {
        return false;
    }
    match mode {
        ColorMode::Always => true,
        ColorMode::Auto => is_terminal,
        ColorMode::Never => false,
    }
}

fn deeper_by(indent: usize, k: usize) -> (r: usize)
    ensures
        r == deeper(indent, k),
{
    if indent > usize::MAX - k {
        usize::MAX
    } else {
        indent + k
    }
}

fn write_str(out: &mut Vec<u8>, s: &str)
    ensures
        final(out)@ == old(out)@ + lit(s),
{
    append_bytes(out, s.as_bytes());
}

/// Appends the decimal digits of `n`.
fn push_decimal(out: &mut Vec<u8>, n: usize)
    ensures
        final(out)@ == old(out)@ + decimal(n as nat),
    decreases n,
{
    if n >= 10 {
        push_decimal(out, n / 10);
    }
    out.push((48 + n % 10) as u8);
    proof {
        if n >= 10 {
            assert(decimal(n as nat) == decimal((n / 10) as nat) + seq![(48 + n % 10) as u8]);
        }
    }
    assert(out@ =~= old(out)@ + decimal(n as nat));
}

/// The three colors of changes.
#[derive(Clone, Copy)]
enum Paint {
    Red,
    Green,
    Yellow,
}

spec fn paint_seq(p: Paint, c: bool) -> Seq<u8> {
    match p {
        Paint::Red => red(c),
        Paint::Green => green(c),
        Paint::Yellow => yellow(c),
    }
}

/// Renders diff trees as text, with a fixed color choice and number of
/// leading context lines.
pub struct Renderer {
    context_lines: usize,
    color: bool,
}

impl Renderer {
    /// Whether this renderer colors its output.
    pub closed spec fn color(&self) -> bool {
        self.color
    }

    /// How many leading context lines a content diff shows.
    pub closed spec fn context(&self) -> nat {
        self.context_lines as nat
    }

    /// A renderer for `color_mode`, given whether the `NO_COLOR` signal is
    /// present and whether output goes to a terminal.
    pub fn new(color_mode: ColorMode, context_lines: usize, no_color: bool, is_terminal: bool) -> (r: Renderer)
        ensures
            r.color() == color_enabled(color_mode, no_color, is_terminal),
            r.context() == context_lines as nat,
    {
        Renderer { context_lines, color: should_use_color(color_mode, no_color, is_terminal) }
    }

    fn escape_code(&self, out: &mut Vec<u8>, code1: u8, code2: Option<u8>)
        ensures
            final(out)@ == old(out)@ + escape(
                match code2 {
                    Some(d) => seq![code1, d],
                    None => seq![code1],
                },
                self.color(),
            ),
    {
        if self.color {
            out.push(27u8);
            out.push(91u8);
            out.push(code1);
            if let Some(d) = code2 {
                out.push(d);
            }
            out.push(109u8);
        }
        assert(out@ =~= old(out)@ + escape(
            match code2 {
                Some(d) => seq![code1, d],
                None => seq![code1],
            },
            self.color(),
        ));
    }

    fn paint(&self, out: &mut Vec<u8>, p: Paint)
        ensures
            final(out)@ == old(out)@ + paint_seq(p, self.color()),
    {
        match p {
            Paint::Red => self.escape_code(out, 51u8, Some(49u8)),
            Paint::Green => self.escape_code(out, 51u8, Some(50u8)),
            Paint::Yellow => self.escape_code(out, 51u8, Some(51u8)),
        }
    }

    fn bold(&self, out: &mut Vec<u8>)
        ensures
            final(out)@ == old(out)@ + bold(self.color()),
    {
        self.escape_code(out, 49u8, None)
    }

    fn reset(&self, out: &mut Vec<u8>)
        ensures
            final(out)@ == old(out)@ + reset(self.color()),
    {
        self.escape_code(out, 48u8, None)
    }

    fn write_indent(&self, out: &mut Vec<u8>, indent: usize)
        ensures
            final(out)@ == old(out)@ + spaces(indent),
    {
        let mut i: usize = 0;
        while i < indent
            invariant
                i <= indent,
                out@ == old(out)@ + spaces(i),
            decreases indent - i,
        {
            out.push(32u8);
            assert(spaces((i + 1) as usize) =~= spaces(i).push(32u8));
            i = i + 1;
        }
    }

    fn write_section(&self, out: &mut Vec<u8>, title: &str, indent: usize)
        ensures
            final(out)@ == old(out)@ + section(lit(title), indent, self.color()),
    {
        let ghost o = out@;
        self.write_indent(out, indent);
        self.bold(out);
        write_str(out, title);
        write_str(out, ":");
        self.reset(out);
        out.push(NEWLINE);
        assert(out@ =~= o + section(lit(title), indent, self.color()));
    }

    fn write_line(&self, out: &mut Vec<u8>, indent: usize, p: Paint, prefix: &str, text: &[u8])
        ensures
            final(out)@ == old(out)@ + line(indent, paint_seq(p, self.color()), lit(prefix), text@, self.color()),
    {
        let ghost o = out@;
        self.write_indent(out, indent);
        self.paint(out, p);
        write_str(out, prefix);
        append_bytes(out, text);
        self.reset(out);
        out.push(NEWLINE);
        assert(out@ =~= o + line(indent, paint_seq(p, self.color()), lit(prefix), text@, self.color()));
    }

    fn format_string_diff(&self, out: &mut Vec<u8>, diff: &StringDiff, indent: usize)
        ensures
            final(out)@ == old(out)@ + string_diff_text(diff@, indent, self.color()),
    {
        let ghost o = out@;
        self.write_line(out, indent, Paint::Red, "- ", diff.old.as_slice());
        self.write_line(out, indent, Paint::Green, "+ ", diff.new.as_slice());
        assert(out@ =~= o + string_diff_text(diff@, indent, self.color()));
    }

    fn format_diff_line(&self, out: &mut Vec<u8>, l: &DiffLine, indent: usize)
        ensures
            final(out)@ == old(out)@ + line_text(l@, indent, self.color()),
    {
        let ghost o = out@;
        self.write_indent(out, indent);
        match l {
            DiffLine::Context(t) => {
                write_str(out, "  ");
                append_bytes(out, t.as_slice());
            },
            DiffLine::Added(t) => {
                self.paint(out, Paint::Green);
                write_str(out, "+ ");
                append_bytes(out, t.as_slice());
                self.reset(out);
            },
            DiffLine::Removed(t) => {
                self.paint(out, Paint::Red);
                write_str(out, "- ");
                append_bytes(out, t.as_slice());
                self.reset(out);
            },
        }
        assert(out@ =~= o + line_text(l@, indent, self.color()));
    }

    /// A content diff as text. Before the first change only the last
    /// `context_lines` context pieces are shown; from the first change on,
    /// every piece is.
    pub fn format_text_diff(&self, out: &mut Vec<u8>, diff: &TextDiff, indent: usize)
        ensures
            final(out)@ == old(out)@ + text_diff_text(diff@, indent, self.color(), self.context()),
    {
        let ghost o = out@;
        match diff {
            TextDiff::Binary => {
                self.write_indent(out, indent);
                self.paint(out, Paint::Yellow);
                write_str(out, "Binary files differ");
                self.reset(out);
                out.push(NEWLINE);
                assert(out@ =~= o + text_diff_text(diff@, indent, self.color(), self.context()));
            },
            TextDiff::Text(lines) => {
                let ghost lv = lines@.map_values(|l: DiffLine| l@);
                let mut first: usize = 0;
                while first < lines.len() && matches!(lines[first], DiffLine::Context(_))
                    invariant
                        first <= lines@.len(),
                        lv == lines@.map_values(|l: DiffLine| l@),
                        first_change_from(lv, first as int) == first_change(lv),
                    decreases lines@.len() - first,
                {
                    first = first + 1;
                }
                assert(first_change(lv) == first);
                let n = self.context_lines;
                let mut k: usize = 0;
                while k < lines.len()
                    invariant
                        k <= lines@.len(),
                        lv == lines@.map_values(|l: DiffLine| l@),
                        first == first_change(lv),
                        n as nat == self.context(),
                        out@ == o + lines_text(lv, k as nat, indent, self.color(), self.context()),
                    decreases lines@.len() - k,
                {
                    if k >= first || first - k <= n {
                        self.format_diff_line(out, &lines[k], indent);
                    }
                    k = k + 1;
                }
            },
        }
    }

    /// A changed value: a line diff where either side spans several lines,
    /// the old and the new value otherwise.
    fn format_changed_value(&self, out: &mut Vec<u8>, diff: &StringDiff, indent: usize)
        ensures
            final(out)@ == old(out)@ + changed_value_text(diff@, indent, self.color(), self.context()),
    {
        if contains_byte(diff.old.as_slice(), NEWLINE) || contains_byte(diff.new.as_slice(), NEWLINE) {
            let text_diff = line_diff(diff.old.as_slice(), diff.new.as_slice());
            self.format_text_diff(out, &text_diff, indent);
        } else {
            self.format_string_diff(out, diff, indent);
        }
    }

    fn format_opt_field(&self, out: &mut Vec<u8>, diff: &Option<StringDiff>, label: &str, indent: usize)
        ensures
            final(out)@ == old(out)@ + opt_field_text(opt_string_diff_view(*diff), lit(label), indent, self.color()),
    {
        if let Some(d) = diff {
            let ghost o = out@;
            self.write_indent(out, deeper_by(indent, 2));
            write_str(out, label);
            self.format_string_diff(out, d, deeper_by(indent, 4));
            assert(out@ =~= o + opt_field_text(opt_string_diff_view(*diff), lit(label), indent, self.color()));
        } else {
            assert(out@ =~= old(out)@ + Seq::<u8>::empty());
        }
    }

    fn format_output_detail(&self, out: &mut Vec<u8>, diff: &OutputDetailDiff, indent: usize)
        ensures
            final(out)@ == old(out)@ + output_detail_text(diff@, indent, self.color()),
    {
        let ghost o = out@;
        match diff {
            OutputDetailDiff::Added(o) => {
                self.write_line(out, deeper_by(indent, 2), Paint::Green, "+ Added: ", o.path.as_slice());
            },
            OutputDetailDiff::Removed(o) => {
                self.write_line(out, deeper_by(indent, 2), Paint::Red, "- Removed: ", o.path.as_slice());
            },
            OutputDetailDiff::Changed { path, hash_algo, hash, .. } => {
                self.format_opt_field(out, path, "Path:\n", indent);
                self.format_opt_field(out, hash_algo, "Hash algorithm:\n", indent);
                self.format_opt_field(out, hash, "Hash:\n", indent);
                assert(out@ =~= o + output_detail_text(diff@, indent, self.color()));
            },
        }
    }

    fn format_output_diff(&self, out: &mut Vec<u8>, diff: &OutputDiff, indent: usize)
        ensures
            final(out)@ == old(out)@ + (output_text(indent, self.color()))(diff@),
    {
        let ghost o = out@;
        self.write_indent(out, indent);
        write_str(out, "Output '");
        append_bytes(out, diff.name.as_slice());
        write_str(out, "':\n");
        self.format_output_detail(out, &diff.diff, indent);
        assert(out@ =~= o + (output_text(indent, self.color()))(diff@));
    }

    fn format_env_var_diff(&self, out: &mut Vec<u8>, diff: &EnvVarDiff, indent: usize)
        ensures
            final(out)@ == old(out)@ + env_var_text(diff@, indent, self.color(), self.context()),
    {
        match diff {
            EnvVarDiff::Added(v) => self.write_line(out, indent, Paint::Green, "+ ", v.as_slice()),
            EnvVarDiff::Removed(v) => self.write_line(out, indent, Paint::Red, "- ", v.as_slice()),
            EnvVarDiff::Changed(d) => self.format_changed_value(out, d, indent),
        }
    }

    fn format_paths(&self, out: &mut Vec<u8>, paths: &Vec<Vec<u8>>, indent: usize, p: Paint, prefix: &str)
        ensures
            final(out)@ == old(out)@ + concat_map(
                seqs_view(paths@),
                line_fn(indent, paint_seq(p, self.color()), lit(prefix), self.color()),
            ),
    {
        let ghost o = out@;
        let ghost sv = seqs_view(paths@);
        let ghost f = line_fn(indent, paint_seq(p, self.color()), lit(prefix), self.color());
        let mut k: usize = 0;
        while k < paths.len()
            invariant
                k <= paths@.len(),
                sv == seqs_view(paths@),
                f == line_fn(indent, paint_seq(p, self.color()), lit(prefix), self.color()),
                out@ == o + concat_map(sv.take(k as int), f),
            decreases paths@.len() - k,
        {
            proof {
                lemma_concat_map_step(sv, f, k as int);
            }
            self.write_line(out, indent, p, prefix, paths[k].as_slice());
            assert(out@ =~= o + concat_map(sv.take(k + 1), f));
            k = k + 1;
        }
        assert(sv.take(k as int) =~= sv);
    }

    fn format_derivation_paths(&self, out: &mut Vec<u8>, paths: &Vec<DerivationPath>, indent: usize, p: Paint, prefix: &str)
        ensures
            final(out)@ == old(out)@ + concat_map(
                paths_view(paths@),
                line_fn(indent, paint_seq(p, self.color()), lit(prefix), self.color()),
            ),
    {
        let ghost o = out@;
        let ghost sv = paths_view(paths@);
        let ghost f = line_fn(indent, paint_seq(p, self.color()), lit(prefix), self.color());
        let mut k: usize = 0;
        while k < paths.len()
            invariant
                k <= paths@.len(),
                sv == paths_view(paths@),
                f == line_fn(indent, paint_seq(p, self.color()), lit(prefix), self.color()),
                out@ == o + concat_map(sv.take(k as int), f),
            decreases paths@.len() - k,
        {
            proof {
                lemma_concat_map_step(sv, f, k as int);
            }
            self.write_line(out, indent, p, prefix, paths[k].0.as_slice());
            assert(out@ =~= o + concat_map(sv.take(k + 1), f));
            k = k + 1;
        }
        assert(sv.take(k as int) =~= sv);
    }

    fn format_sources_diff(&self, out: &mut Vec<u8>, diff: &SourcesDiff, indent: usize)
        ensures
            final(out)@ == old(out)@ + sources_text(diff@, indent, self.color(), self.context()),
    {
        let ghost o = out@;
        let ghost c = self.color();
        let ghost n = self.context();
        self.write_section(out, "Sources", indent);
        self.format_paths(out, &diff.removed, deeper_by(indent, 2), Paint::Red, "- ");
        self.format_paths(out, &diff.added, deeper_by(indent, 2), Paint::Green, "+ ");
        let ghost mid = out@;
        let ghost cv = diff.common@.map_values(|x: SourceDiff| x@);
        let ghost f = source_text(indent, c, n);
        let mut k: usize = 0;
        while k < diff.common.len()
            invariant
                k <= diff.common@.len(),
                cv == diff.common@.map_values(|x: SourceDiff| x@),
                c == self.color(),
                n == self.context(),
                f == source_text(indent, c, n),
                out@ == mid + concat_map(cv.take(k as int), f),
            decreases diff.common@.len() - k,
        {
            proof {
                lemma_concat_map_step(cv, f, k as int);
            }
            let ghost before = out@;
            let sd = &diff.common[k];
            self.write_line(out, deeper_by(indent, 2), Paint::Yellow, "~ ", sd.path.as_slice());
            self.format_text_diff(out, &sd.diff, deeper_by(indent, 4));
            assert(out@ =~= before + f(cv[k as int]));
            assert(out@ =~= mid + concat_map(cv.take(k + 1), f));
            k = k + 1;
        }
        assert(cv.take(k as int) =~= cv);
        assert(out@ =~= o + sources_text(diff@, indent, c, n));
    }

    fn format_output_set_diff(&self, out: &mut Vec<u8>, diff: &OutputSetDiff, indent: usize)
        ensures
            final(out)@ == old(out)@ + output_set_text(diff@, indent, self.color()),
    {
        let ghost o = out@;
        self.format_paths(out, &diff.removed, indent, Paint::Red, "- ");
        self.format_paths(out, &diff.added, indent, Paint::Green, "+ ");
        assert(out@ =~= o + output_set_text(diff@, indent, self.color()));
    }

    #[verifier::rlimit(60)]
    fn format_inputs_diff(&self, out: &mut Vec<u8>, ins: &InputsDiff, indent: usize)
        ensures
            final(out)@ == old(out)@ + inputs_text(*ins, indent, self.color(), self.context()),
        decreases ins, 0nat,
    {
        let ghost o = out@;
        let ghost c = self.color();
        let ghost n = self.context();
        self.write_section(out, "Input derivations", indent);
        self.format_derivation_paths(out, &ins.removed, deeper_by(indent, 2), Paint::Red, "- ");
        self.format_derivation_paths(out, &ins.added, deeper_by(indent, 2), Paint::Green, "+ ");
        let ghost mid = out@;
        let mut k: usize = 0;
        while k < ins.changed.len()
            invariant
                k <= ins.changed@.len(),
                c == self.color(),
                n == self.context(),
                out@ == mid + changed_text(ins.changed@, k as nat, indent, c, n),
            decreases ins.changed@.len() - k,
        {
            let ghost before = out@;
            let e = &ins.changed[k];
            self.write_line(out, deeper_by(indent, 2), Paint::Yellow, "~ ", e.path.as_slice());
            let ghost after_line = out@;
            if let Some(os) = &e.outputs {
                self.write_indent(out, deeper_by(indent, 4));
                write_str(out, "Output changes:\n");
                self.format_output_set_diff(out, os, deeper_by(indent, 6));
            }
            let ghost after_outputs = out@;
            assert(after_outputs =~= after_line + match e.outputs {
                Some(os) => spaces(deeper(indent, 4)) + lit("Output changes:\n") + output_set_text(
                    os@,
                    deeper(indent, 6),
                    c,
                ),
                None => Seq::empty(),
            });
            if let Some(b) = &e.derivation {
                self.format_derivation_diff(out, &**b, deeper_by(indent, 4));
            }
            assert(out@ =~= after_outputs + match e.derivation {
                Some(b) => diff_text(*b, deeper(indent, 4), c, n),
                None => Seq::empty(),
            });
            assert(out@ =~= mid + changed_text(ins.changed@, (k + 1) as nat, indent, c, n));
            k = k + 1;
        }
        assert(out@ =~= o + inputs_text(*ins, indent, c, n));
    }

    fn format_arguments(&self, out: &mut Vec<u8>, args: &Vec<(usize, StringDiff)>, indent: usize)
        ensures
            final(out)@ == old(out)@ + concat_map(
                arguments_view(args@),
                argument_text(indent, self.color(), self.context()),
            ),
    {
        let ghost o = out@;
        let ghost av = arguments_view(args@);
        let ghost f = argument_text(indent, self.color(), self.context());
        let mut k: usize = 0;
        while k < args.len()
            invariant
                k <= args@.len(),
                av == arguments_view(args@),
                f == argument_text(indent, self.color(), self.context()),
                out@ == o + concat_map(av.take(k as int), f),
            decreases args@.len() - k,
        {
            proof {
                lemma_concat_map_step(av, f, k as int);
            }
            let ghost before = out@;
            let (i, d) = &args[k];
            self.write_indent(out, deeper_by(indent, 2));
            write_str(out, "Argument ");
            push_decimal(out, *i);
            write_str(out, ":\n");
            self.format_changed_value(out, d, deeper_by(indent, 4));
            assert(out@ =~= before + f(av[k as int]));
            assert(out@ =~= o + concat_map(av.take(k + 1), f));
            k = k + 1;
        }
        assert(av.take(k as int) =~= av);
    }

    fn format_environment(&self, out: &mut Vec<u8>, env: &Vec<(Vec<u8>, EnvVarDiff)>, indent: usize)
        ensures
            final(out)@ == old(out)@ + concat_map(
                env_diff_view(env@),
                env_text(indent, self.color(), self.context()),
            ),
    {
        let ghost o = out@;
        let ghost ev = env_diff_view(env@);
        let ghost f = env_text(indent, self.color(), self.context());
        let mut k: usize = 0;
        while k < env.len()
            invariant
                k <= env@.len(),
                ev == env_diff_view(env@),
                f == env_text(indent, self.color(), self.context()),
                out@ == o + concat_map(ev.take(k as int), f),
            decreases env@.len() - k,
        {
            proof {
                lemma_concat_map_step(ev, f, k as int);
            }
            let ghost before = out@;
            let (key, d) = &env[k];
            self.write_indent(out, deeper_by(indent, 2));
            append_bytes(out, key.as_slice());
            write_str(out, ":\n");
            self.format_env_var_diff(out, d, deeper_by(indent, 4));
            assert(out@ =~= before + f(ev[k as int]));
            assert(out@ =~= o + concat_map(ev.take(k + 1), f));
            k = k + 1;
        }
        assert(ev.take(k as int) =~= ev);
    }

    fn format_outputs(&self, out: &mut Vec<u8>, diffs: &Vec<OutputDiff>, indent: usize)
        ensures
            final(out)@ == old(out)@ + concat_map(
                diffs@.map_values(|d: OutputDiff| d@),
                output_text(indent, self.color()),
            ),
    {
        let ghost o = out@;
        let ghost dv = diffs@.map_values(|d: OutputDiff| d@);
        let ghost f = output_text(indent, self.color());
        let mut k: usize = 0;
        while k < diffs.len()
            invariant
                k <= diffs@.len(),
                dv == diffs@.map_values(|d: OutputDiff| d@),
                f == output_text(indent, self.color()),
                out@ == o + concat_map(dv.take(k as int), f),
            decreases diffs@.len() - k,
        {
            proof {
                lemma_concat_map_step(dv, f, k as int);
            }
            self.format_output_diff(out, &diffs[k], indent);
            assert(out@ =~= o + concat_map(dv.take(k + 1), f));
            k = k + 1;
        }
        assert(dv.take(k as int) =~= dv);
    }

    /// Appends the text of a derivation diff: one section per field that
    /// differs, nested diffs further indented.
    #[verifier::rlimit(60)]
    pub fn format_derivation_diff(&self, out: &mut Vec<u8>, diff: &DerivationDiff, indent: usize)
        ensures
            final(out)@ == old(out)@ + diff_text(*diff, indent, self.color(), self.context()),
        decreases diff, 1nat,
    {
        let ghost c = self.color();
        let ghost n = self.context();
        let mut buf: Vec<u8> = Vec::new();
        self.format_outputs_part(&mut buf, diff, indent);
        assert(buf@ =~= outputs_part(*diff, indent, c));
        self.format_value_part(&mut buf, "Platform", &diff.platform, indent);
        self.format_value_part(&mut buf, "Builder", &diff.builder, indent);
        self.format_args_part(&mut buf, diff, indent);
        if let Some(x) = &diff.sources {
            self.format_sources_diff(&mut buf, x, indent);
        } else {
            assert(buf@ =~= buf@ + sources_part(*diff, indent, c, n));
        }
        self.format_inputs_part(&mut buf, diff, indent);
        self.format_env_part(&mut buf, diff, indent);
        assert(buf@ == diff_text(*diff, indent, c, n));
        append_bytes(out, buf.as_slice());
    }

    fn format_outputs_part(&self, out: &mut Vec<u8>, diff: &DerivationDiff, indent: usize)
        ensures
            final(out)@ == old(out)@ + outputs_part(*diff, indent, self.color()),
    {
        if let OutputsDiff::Changed(output_diffs) = &diff.outputs {
            let ghost o = out@;
            self.write_section(out, "Outputs", indent);
            self.format_outputs(out, output_diffs, deeper_by(indent, 2));
            assert(out@ =~= o + outputs_part(*diff, indent, self.color()));
        } else {
            assert(out@ =~= old(out)@ + outputs_part(*diff, indent, self.color()));
        }
    }

    fn format_value_part(&self, out: &mut Vec<u8>, title: &str, d: &Option<StringDiff>, indent: usize)
        ensures
            final(out)@ == old(out)@ + value_part(lit(title), opt_string_diff_view(*d), indent, self.color()),
    {
        if let Some(x) = d {
            let ghost o = out@;
            self.write_section(out, title, indent);
            self.format_string_diff(out, x, deeper_by(indent, 2));
            assert(out@ =~= o + value_part(lit(title), opt_string_diff_view(*d), indent, self.color()));
        } else {
            assert(out@ =~= old(out)@ + value_part(lit(title), opt_string_diff_view(*d), indent, self.color()));
        }
    }

    fn format_args_part(&self, out: &mut Vec<u8>, diff: &DerivationDiff, indent: usize)
        ensures
            final(out)@ == old(out)@ + args_part(*diff, indent, self.color(), self.context()),
    {
        if let Some(a) = &diff.args {
            let ghost o = out@;
            self.write_section(out, "Arguments", indent);
            self.format_arguments(out, a, indent);
            assert(out@ =~= o + args_part(*diff, indent, self.color(), self.context()));
        } else {
            assert(out@ =~= old(out)@ + args_part(*diff, indent, self.color(), self.context()));
        }
    }

    fn format_inputs_part(&self, out: &mut Vec<u8>, diff: &DerivationDiff, indent: usize)
        ensures
            final(out)@ == old(out)@ + inputs_part(*diff, indent, self.color(), self.context()),
        decreases diff, 0nat,
    {
        if let Some(ins) = &diff.inputs {
            self.format_inputs_diff(out, ins, indent);
        } else {
            assert(out@ =~= old(out)@ + inputs_part(*diff, indent, self.color(), self.context()));
        }
    }

    fn format_env_part(&self, out: &mut Vec<u8>, diff: &DerivationDiff, indent: usize)
        ensures
            final(out)@ == old(out)@ + env_part(*diff, indent, self.color(), self.context()),
    {
        if let Some(e) = &diff.env {
            let ghost o = out@;
            self.write_section(out, "Environment", indent);
            self.format_environment(out, e, indent);
            assert(out@ =~= o + env_part(*diff, indent, self.color(), self.context()));
        } else {
            assert(out@ =~= old(out)@ + env_part(*diff, indent, self.color(), self.context()));
        }
    }

    /// The text of a diff, or a notice that the derivations are identical
    /// where the diff shows nothing.
    pub fn render(&self, diff: &DerivationDiff) -> (r: Vec<u8>)
        ensures
            r@ == rendered(*diff, self.color(), self.context()),
    {
        let mut out: Vec<u8> = Vec::new();
        self.format_derivation_diff(&mut out, diff, 0);
        assert(out@ =~= diff_text(*diff, 0, self.color(), self.context()));
        if out.len() == 0 {
            let mut notice: Vec<u8> = Vec::new();
            write_str(&mut notice, "The derivations are identical.\n");
            assert(notice@ =~= lit("The derivations are identical.\n"));
            notice
        } else {
            out
        }
    }
}

} // verus!
