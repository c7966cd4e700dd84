//! The data model: parsed derivations and the diff tree built from two of them.

use crate::bytes::bytes_lt;
use vstd::prelude::*;

verus! {

/// The byte strings of a sequence of byte vectors.
pub open spec fn seqs_view(v: Seq<Vec<u8>>) -> Seq<Seq<u8>> {
    v.map_values(|b: Vec<u8>| b@)
}

/// An optional byte vector seen as an optional byte string.
pub open spec fn opt_view(o: Option<Vec<u8>>) -> Option<Seq<u8>> {
    match o {
        Some(v) => Some(v@),
        None => None,
    }
}

/// Byte strings in strictly ascending order: a set, each member once.
pub open spec fn strictly_sorted(s: Seq<Seq<u8>>) -> bool {
    forall|i: int, j: int| 0 <= i < j < s.len() ==> bytes_lt(#[trigger] s[i], #[trigger] s[j])
}

/// The keys of a sequence of entries.
pub open spec fn keys_of<V>(s: Seq<(Seq<u8>, V)>) -> Seq<Seq<u8>> {
    s.map_values(|e: (Seq<u8>, V)| e.0)
}

/// A wrapper around derivation paths that sorts by derivation name, then by the
/// full path.
#[derive(Clone, Debug)]
pub struct DerivationPath(pub Vec<u8>);

/// One output a derivation declares. Both hash fields are present for a
/// fixed-output derivation and absent otherwise; absent is not empty.
#[derive(Clone, Debug)]
pub struct Output {
    pub path: Vec<u8>,
    pub hash_algorithm: Option<Vec<u8>>,
    pub hash: Option<Vec<u8>>,
}

pub struct OutputView {
    pub path: Seq<u8>,
    pub hash_algorithm: Option<Seq<u8>>,
    pub hash: Option<Seq<u8>>,
}

impl View for Output {
    type V = OutputView;

    open spec fn view(&self) -> OutputView {
        OutputView {
            path: self.path@,
            hash_algorithm: opt_view(self.hash_algorithm),
            hash: opt_view(self.hash),
        }
    }
}

/// A parsed derivation. Every map and set is a vector in strictly ascending
/// byte order of its keys (see `DerivationView::wf`).
#[derive(Clone, Debug)]
pub struct Derivation {
    pub outputs: Vec<(Vec<u8>, Output)>,
    pub input_sources: Vec<Vec<u8>>,
    pub input_derivations: Vec<(Vec<u8>, Vec<Vec<u8>>)>,
    pub platform: Vec<u8>,
    pub builder: Vec<u8>,
    pub args: Vec<Vec<u8>>,
    pub env: Vec<(Vec<u8>, Vec<u8>)>,
}

pub struct DerivationView {
    pub outputs: Seq<(Seq<u8>, OutputView)>,
    pub input_sources: Seq<Seq<u8>>,
    pub input_derivations: Seq<(Seq<u8>, Seq<Seq<u8>>)>,
    pub platform: Seq<u8>,
    pub builder: Seq<u8>,
    pub args: Seq<Seq<u8>>,
    pub env: Seq<(Seq<u8>, Seq<u8>)>,
}

impl DerivationView {
    /// Keys unique and ascending in every map, and in the set of input
    /// sources.
    pub open spec fn wf(self) -> bool {
        &&& strictly_sorted(keys_of(self.outputs))
        &&& strictly_sorted(self.input_sources)
        &&& strictly_sorted(keys_of(self.input_derivations))
        &&& strictly_sorted(keys_of(self.env))
    }
}

pub open spec fn outputs_view(v: Seq<(Vec<u8>, Output)>) -> Seq<(Seq<u8>, OutputView)> {
    v.map_values(|e: (Vec<u8>, Output)| (e.0@, e.1@))
}

pub open spec fn inputs_view(v: Seq<(Vec<u8>, Vec<Vec<u8>>)>) -> Seq<(Seq<u8>, Seq<Seq<u8>>)> {
    v.map_values(|e: (Vec<u8>, Vec<Vec<u8>>)| (e.0@, seqs_view(e.1@)))
}

pub open spec fn env_view(v: Seq<(Vec<u8>, Vec<u8>)>) -> Seq<(Seq<u8>, Seq<u8>)> {
    v.map_values(|e: (Vec<u8>, Vec<u8>)| (e.0@, e.1@))
}

impl View for Derivation {
    type V = DerivationView;

    open spec fn view(&self) -> DerivationView {
        DerivationView {
            outputs: outputs_view(self.outputs@),
            input_sources: seqs_view(self.input_sources@),
            input_derivations: inputs_view(self.input_derivations@),
            platform: self.platform@,
            builder: self.builder@,
            args: seqs_view(self.args@),
            env: env_view(self.env@),
        }
    }
}

/// A value that changed: the old bytes and the new.
#[derive(Clone, Debug)]
pub struct StringDiff {
    pub old: Vec<u8>,
    pub new: Vec<u8>,
}

pub struct StringDiffView {
    pub old: Seq<u8>,
    pub new: Seq<u8>,
}

impl View for StringDiff {
    type V = StringDiffView;

    open spec fn view(&self) -> StringDiffView {
        StringDiffView { old: self.old@, new: self.new@ }
    }
}

pub open spec fn opt_string_diff_view(o: Option<StringDiff>) -> Option<StringDiffView> {
    match o {
        Some(d) => Some(d@),
        None => None,
    }
}

/// How one output differs between the two derivations.
#[derive(Clone, Debug)]
pub enum OutputDetailDiff {
    Added(Output),
    Removed(Output),
    Changed {
        old: Output,
        new: Output,
        path: Option<StringDiff>,
        hash_algo: Option<StringDiff>,
        hash: Option<StringDiff>,
    },
}

pub enum OutputDetailDiffView {
    Added(OutputView),
    Removed(OutputView),
    Changed {
        old: OutputView,
        new: OutputView,
        path: Option<StringDiffView>,
        hash_algo: Option<StringDiffView>,
        hash: Option<StringDiffView>,
    },
}

impl View for OutputDetailDiff {
    type V = OutputDetailDiffView;

    open spec fn view(&self) -> OutputDetailDiffView {
        match self {
            OutputDetailDiff::Added(o) => OutputDetailDiffView::Added(o@),
            OutputDetailDiff::Removed(o) => OutputDetailDiffView::Removed(o@),
            OutputDetailDiff::Changed { old, new, path, hash_algo, hash } => {
                OutputDetailDiffView::Changed {
                    old: old@,
                    new: new@,
                    path: opt_string_diff_view(*path),
                    hash_algo: opt_string_diff_view(*hash_algo),
                    hash: opt_string_diff_view(*hash),
                }
            },
        }
    }
}

/// A named output that differs.
#[derive(Clone, Debug)]
pub struct OutputDiff {
    pub name: Vec<u8>,
    pub diff: OutputDetailDiff,
}

impl View for OutputDiff {
    type V = (Seq<u8>, OutputDetailDiffView);

    open spec fn view(&self) -> (Seq<u8>, OutputDetailDiffView) {
        (self.name@, self.diff@)
    }
}

/// The outputs that differ, in ascending order of name.
#[derive(Clone, Debug)]
pub enum OutputsDiff {
    Identical,
    Changed(Vec<OutputDiff>),
}

impl View for OutputsDiff {
    type V = Seq<(Seq<u8>, OutputDetailDiffView)>;

    /// The differing outputs; none when identical.
    open spec fn view(&self) -> Seq<(Seq<u8>, OutputDetailDiffView)> {
        match self {
            OutputsDiff::Identical => Seq::empty(),
            OutputsDiff::Changed(v) => v@.map_values(|d: OutputDiff| d@),
        }
    }
}

/// The arguments that differ, each with its position.
pub type ArgumentsDiff = Vec<(usize, StringDiff)>;

pub open spec fn arguments_view(v: Seq<(usize, StringDiff)>) -> Seq<(int, StringDiffView)> {
    v.map_values(|e: (usize, StringDiff)| (e.0 as int, e.1@))
}

/// One piece of a content diff.
#[derive(Clone, Debug, PartialEq, Eq)]
pub enum DiffLine {
    Context(Vec<u8>),
    Added(Vec<u8>),
    Removed(Vec<u8>),
}

pub enum DiffLineView {
    Context(Seq<u8>),
    Added(Seq<u8>),
    Removed(Seq<u8>),
}

impl View for DiffLine {
    type V = DiffLineView;

    open spec fn view(&self) -> DiffLineView {
        match self {
            DiffLine::Context(t) => DiffLineView::Context(t@),
            DiffLine::Added(t) => DiffLineView::Added(t@),
            DiffLine::Removed(t) => DiffLineView::Removed(t@),
        }
    }
}

/// The difference between two contents: binary, or a sequence of pieces.
#[derive(Clone, Debug, PartialEq, Eq)]
pub enum TextDiff {
    Binary,
    Text(Vec<DiffLine>),
}

pub enum TextDiffView {
    Binary,
    Text(Seq<DiffLineView>),
}

impl View for TextDiff {
    type V = TextDiffView;

    open spec fn view(&self) -> TextDiffView {
        match self {
            TextDiff::Binary => TextDiffView::Binary,
            TextDiff::Text(v) => TextDiffView::Text(v@.map_values(|l: DiffLine| l@)),
        }
    }
}

/// A source present on both sides whose contents differ.
#[derive(Clone, Debug)]
pub struct SourceDiff {
    pub path: Vec<u8>,
    pub diff: TextDiff,
}

impl View for SourceDiff {
    type V = (Seq<u8>, TextDiffView);

    open spec fn view(&self) -> (Seq<u8>, TextDiffView) {
        (self.path@, self.diff@)
    }
}

/// Sources added and removed, in ascending order, and the shared sources whose
/// contents differ.
#[derive(Clone, Debug)]
pub struct SourcesDiff {
    pub added: Vec<Vec<u8>>,
    pub removed: Vec<Vec<u8>>,
    pub common: Vec<SourceDiff>,
}

pub struct SourcesDiffView {
    pub added: Seq<Seq<u8>>,
    pub removed: Seq<Seq<u8>>,
    pub common: Seq<(Seq<u8>, TextDiffView)>,
}

impl View for SourcesDiff {
    type V = SourcesDiffView;

    open spec fn view(&self) -> SourcesDiffView {
        SourcesDiffView {
            added: seqs_view(self.added@),
            removed: seqs_view(self.removed@),
            common: self.common@.map_values(|c: SourceDiff| c@),
        }
    }
}

/// Output names requested from a shared input derivation on one side only.
#[derive(Clone, Debug)]
pub struct OutputSetDiff {
    pub added: Vec<Vec<u8>>,
    pub removed: Vec<Vec<u8>>,
}

pub struct OutputSetDiffView {
    pub added: Seq<Seq<u8>>,
    pub removed: Seq<Seq<u8>>,
}

impl View for OutputSetDiff {
    type V = OutputSetDiffView;

    open spec fn view(&self) -> OutputSetDiffView {
        OutputSetDiffView { added: seqs_view(self.added@), removed: seqs_view(self.removed@) }
    }
}

pub open spec fn opt_output_set_view(o: Option<OutputSetDiff>) -> Option<OutputSetDiffView> {
    match o {
        Some(d) => Some(d@),
        None => None,
    }
}

/// An input derivation present on both sides that differs: in the outputs
/// requested from it, in its own content, or both.
#[derive(Debug)]
pub struct InputDiff {
    pub path: Vec<u8>,
    pub outputs: Option<OutputSetDiff>,
    pub derivation: Option<Box<DerivationDiff>>,
}

/// An input entry as its parent sees it: the path, the output set diff, and
/// the two derivations that the nested diff compares.
pub open spec fn input_entry_view(c: InputDiff) -> (Seq<u8>, Option<OutputSetDiffView>, Option<(DerivationView, DerivationView)>) {
    (
        c.path@,
        opt_output_set_view(c.outputs),
        match c.derivation {
            Some(d) => Some((d.original@, d.new@)),
            None => None,
        },
    )
}

/// Input derivations added and removed, and the shared ones that differ,
/// each in ascending order of path.
#[derive(Debug)]
pub struct InputsDiff {
    pub added: Vec<DerivationPath>,
    pub removed: Vec<DerivationPath>,
    pub changed: Vec<InputDiff>,
}

pub open spec fn paths_view(v: Seq<DerivationPath>) -> Seq<Seq<u8>> {
    v.map_values(|p: DerivationPath| p.0@)
}

/// One environment variable that differs.
#[derive(Clone, Debug)]
pub enum EnvVarDiff {
    Added(Vec<u8>),
    Removed(Vec<u8>),
    Changed(StringDiff),
}

pub enum EnvVarDiffView {
    Added(Seq<u8>),
    Removed(Seq<u8>),
    Changed(StringDiffView),
}

impl View for EnvVarDiff {
    type V = EnvVarDiffView;

    open spec fn view(&self) -> EnvVarDiffView {
        match self {
            EnvVarDiff::Added(v) => EnvVarDiffView::Added(v@),
            EnvVarDiff::Removed(v) => EnvVarDiffView::Removed(v@),
            EnvVarDiff::Changed(d) => EnvVarDiffView::Changed(d@),
        }
    }
}

/// The environment variables that differ, in ascending order of name.
pub type EnvironmentDiff = Vec<(Vec<u8>, EnvVarDiff)>;

pub open spec fn env_diff_view(v: Seq<(Vec<u8>, EnvVarDiff)>) -> Seq<(Seq<u8>, EnvVarDiffView)> {
    v.map_values(|e: (Vec<u8>, EnvVarDiff)| (e.0@, e.1@))
}

/// The comparison of two derivations: both of them, and a diff per field that
/// is present only where the field differs.
#[derive(Debug)]
pub struct DerivationDiff {
    pub original: Derivation,
    pub new: Derivation,
    pub outputs: OutputsDiff,
    pub platform: Option<StringDiff>,
    pub builder: Option<StringDiff>,
    pub args: Option<ArgumentsDiff>,
    pub sources: Option<SourcesDiff>,
    pub inputs: Option<InputsDiff>,
    pub env: Option<EnvironmentDiff>,
}

impl DerivationDiff {
    /// No field differs.
    pub open spec fn is_identical(&self) -> bool {
        &&& self.outputs is Identical
        &&& self.platform is None
        &&& self.builder is None
        &&& self.args is None
        &&& self.sources is None
        &&& self.inputs is None
        &&& self.env is None
    }
}

/// How content diffs are split: by line, by word or by character.
#[derive(Clone, Copy, Debug, PartialEq, Eq, Structural)]
pub enum DiffOrientation {
    Line,
    Word,
    Character,
}

/// When the renderer colors its output.
#[derive(Clone, Copy, Debug, PartialEq, Eq, Structural)]
pub enum ColorMode {
    Always,
    Auto,
    Never,
}

} // verus!
