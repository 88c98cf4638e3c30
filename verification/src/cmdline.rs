//! Kernel command-line parser: a quote-aware tokenizer (a backtick toggles a
//! region in which whitespace no longer separates tokens) followed by a
//! keyword parser that extracts the typed boot configuration.
//!
//! Every executable function is specified against a mathematical model of the
//! same pass over the character sequence, so the contract of `parse_cmdline`
//! pins down the whole parse, success and failure alike.

use vstd::prelude::*;
use vstd::string::StrSliceExecFns;
use vstd::string::StringExecFns;
use crate::strutil::{is_space, is_space_char, has_prefix, find_in, lemma_find_in, strip_prefix_of, find_char};

verus! {

// ---------------------------------------------------------------------------
// Tokenization: whitespace-separated tokens, backtick regions kept whole.
// ---------------------------------------------------------------------------

/// State of the tokenizer after scanning a prefix of the input: the tokens
/// already emitted, the characters of the token being built, and whether the
/// scan stands inside a backtick region.
pub struct TokenizerState {
    pub emitted: Seq<Seq<char>>,
    pub current: Seq<char>,
    pub inside_backticks: bool,
}

pub open spec fn tokenizer_init() -> TokenizerState {
    TokenizerState { emitted: Seq::empty(), current: Seq::empty(), inside_backticks: false }
}

/// One character of the scan: a backtick toggles the quoted flag and is kept;
/// whitespace outside backticks ends the current token (if non-empty); any
/// other character extends the current token.
pub open spec fn tokenizer_step(st: TokenizerState, c: char) -> TokenizerState {
    if c == '`' {
        TokenizerState {
            emitted: st.emitted,
            current: st.current.push(c),
            inside_backticks: !st.inside_backticks,
        }
    } else if is_space(c) && !st.inside_backticks {
        if st.current.len() > 0 {
            TokenizerState {
                emitted: st.emitted.push(st.current),
                current: Seq::empty(),
                inside_backticks: st.inside_backticks,
            }
        } else {
            st
        }
    } else {
        TokenizerState {
            emitted: st.emitted,
            current: st.current.push(c),
            inside_backticks: st.inside_backticks,
        }
    }
}

pub open spec fn tokenizer_run(s: Seq<char>) -> TokenizerState
    decreases s.len(),
{
    if s.len() == 0 {
        tokenizer_init()
    } else {
        tokenizer_step(tokenizer_run(s.drop_last()), s.last())
    }
}

/// The tokens of `s`: run the scan, then emit the trailing token as-is if one
/// is open (also when its closing backtick is missing).
pub open spec fn tokenize(s: Seq<char>) -> Seq<Seq<char>> {
    let st = tokenizer_run(s);
    if st.current.len() > 0 {
        st.emitted.push(st.current)
    } else {
        st.emitted
    }
}

/// Split the raw command line into parameter tokens on whitespace, treating a
/// backtick-enclosed region as part of the token it stands in.
pub fn parse_cmdline_params(cmdline: &str) -> (r: Vec<String>)
    ensures
        r.deep_view() == tokenize(cmdline@),
{
    let n = cmdline.unicode_len();
    let mut params: Vec<String> = Vec::new();
    let mut start: usize = 0;
    let mut inside: bool = false;
    let mut i: usize = 0;
    proof {
        assert(cmdline@.take(0) =~= Seq::<char>::empty());
        assert(cmdline@.subrange(0, 0) =~= Seq::<char>::empty());
    }
    while i < n
        invariant
            start <= i <= n,
            n == cmdline@.len(),
            tokenizer_run(cmdline@.take(i as int)).emitted == params.deep_view(),
            tokenizer_run(cmdline@.take(i as int)).current == cmdline@.subrange(
                start as int,
                i as int,
            ),
            tokenizer_run(cmdline@.take(i as int)).inside_backticks == inside,
        decreases n - i,
    {
        let c = cmdline.get_char(i);
        proof {
            assert(cmdline@.take(i as int + 1).drop_last() =~= cmdline@.take(i as int));
            assert(cmdline@.take(i as int + 1).last() == cmdline@[i as int]);
        }
        if c == '`' {
            inside = !inside;
            proof {
                assert(cmdline@.subrange(start as int, i as int).push(c) =~= cmdline@.subrange(
                    start as int,
                    i as int + 1,
                ));
            }
            i += 1;
        } else if is_space_char(c) && !inside {
            if start < i {
                let tok = cmdline.substring_char(start, i);
                let owned = tok.to_owned();
                proof {
                    let ghost prev = params.deep_view();
                    assert(owned@ == cmdline@.subrange(start as int, i as int));
                    assert(params.deep_view().push(owned@) =~= prev.push(
                        cmdline@.subrange(start as int, i as int),
                    ));
                }
                let ghost prev_dv = params.deep_view();
                params.push(owned);
                proof {
                    assert(params.deep_view() =~= prev_dv.push(
                        cmdline@.subrange(start as int, i as int),
                    ));
                }
            }
            i += 1;
            start = i;
            proof {
                assert(cmdline@.subrange(start as int, i as int) =~= Seq::<char>::empty());
            }
        } else {
            proof {
                assert(cmdline@.subrange(start as int, i as int).push(c) =~= cmdline@.subrange(
                    start as int,
                    i as int + 1,
                ));
            }
            i += 1;
        }
    }
    proof {
        assert(cmdline@.take(n as int) =~= cmdline@);
    }
    if start < n {
        let tok = cmdline.substring_char(start, n);
        let owned = tok.to_owned();
        let ghost prev_dv = params.deep_view();
        params.push(owned);
        proof {
            assert(params.deep_view() =~= prev_dv.push(cmdline@.subrange(start as int, n as int)));
        }
    }
    params
}

// ---------------------------------------------------------------------------
// Splitting on a separator character, and on whitespace runs.
// ---------------------------------------------------------------------------

/// State of a separator split over a prefix of the input: finished pieces and
/// the piece being built.
pub struct SplitState {
    pub pieces: Seq<Seq<char>>,
    pub current: Seq<char>,
}

pub open spec fn split_step(st: SplitState, sep: char, c: char) -> SplitState {
    if c == sep {
        SplitState { pieces: st.pieces.push(st.current), current: Seq::empty() }
    } else {
        SplitState { pieces: st.pieces, current: st.current.push(c) }
    }
}

pub open spec fn split_run(s: Seq<char>, sep: char) -> SplitState
    decreases s.len(),
{
    if s.len() == 0 {
        SplitState { pieces: Seq::empty(), current: Seq::empty() }
    } else {
        split_step(split_run(s.drop_last(), sep), sep, s.last())
    }
}

/// The pieces of `s` between occurrences of `sep`; empty pieces are kept, and
/// an input without separators is the single piece `s` itself.
pub open spec fn split_on(s: Seq<char>, sep: char) -> Seq<Seq<char>> {
    let st = split_run(s, sep);
    st.pieces.push(st.current)
}

/// Split `s` on every occurrence of `sep`, keeping empty pieces.
pub fn split_char(s: &str, sep: char) -> (r: Vec<String>)
    ensures
        r.deep_view() == split_on(s@, sep),
{
    let n = s.unicode_len();
    let mut pieces: Vec<String> = Vec::new();
    let mut start: usize = 0;
    let mut i: usize = 0;
    proof {
        assert(s@.take(0) =~= Seq::<char>::empty());
        assert(s@.subrange(0, 0) =~= Seq::<char>::empty());
    }
    while i < n
        invariant
            start <= i <= n,
            n == s@.len(),
            split_run(s@.take(i as int), sep).pieces == pieces.deep_view(),
            split_run(s@.take(i as int), sep).current == s@.subrange(start as int, i as int),
        decreases n - i,
    {
        let c = s.get_char(i);
        proof {
            assert(s@.take(i as int + 1).drop_last() =~= s@.take(i as int));
            assert(s@.take(i as int + 1).last() == s@[i as int]);
        }
        if c == sep {
            let piece = s.substring_char(start, i);
            let owned = piece.to_owned();
            let ghost prev_dv = pieces.deep_view();
            pieces.push(owned);
            proof {
                assert(pieces.deep_view() =~= prev_dv.push(s@.subrange(start as int, i as int)));
            }
            i += 1;
            start = i;
            proof {
                assert(s@.subrange(start as int, i as int) =~= Seq::<char>::empty());
            }
        } else {
            proof {
                assert(s@.subrange(start as int, i as int).push(c) =~= s@.subrange(
                    start as int,
                    i as int + 1,
                ));
            }
            i += 1;
        }
    }
    proof {
        assert(s@.take(n as int) =~= s@);
    }
    let piece = s.substring_char(start, n);
    let owned = piece.to_owned();
    let ghost prev_dv = pieces.deep_view();
    pieces.push(owned);
    proof {
        assert(pieces.deep_view() =~= prev_dv.push(s@.subrange(start as int, n as int)));
    }
    pieces
}

pub open spec fn split_ws_step(st: SplitState, c: char) -> SplitState {
    if is_space(c) {
        if st.current.len() > 0 {
            SplitState { pieces: st.pieces.push(st.current), current: Seq::empty() }
        } else {
            st
        }
    } else {
        SplitState { pieces: st.pieces, current: st.current.push(c) }
    }
}

pub open spec fn split_ws_run(s: Seq<char>) -> SplitState
    decreases s.len(),
{
    if s.len() == 0 {
        SplitState { pieces: Seq::empty(), current: Seq::empty() }
    } else {
        split_ws_step(split_ws_run(s.drop_last()), s.last())
    }
}

/// The maximal whitespace-free runs of `s`, in order: runs of whitespace
/// collapse and contribute no empty pieces.
pub open spec fn split_ws(s: Seq<char>) -> Seq<Seq<char>> {
    let st = split_ws_run(s);
    if st.current.len() > 0 {
        st.pieces.push(st.current)
    } else {
        st.pieces
    }
}

/// Split `s` into its whitespace-separated words, collapsing runs of
/// whitespace and dropping empty words.
pub fn split_whitespace_words(s: &str) -> (r: Vec<String>)
    ensures
        r.deep_view() == split_ws(s@),
{
    let n = s.unicode_len();
    let mut words: Vec<String> = Vec::new();
    let mut start: usize = 0;
    let mut i: usize = 0;
    proof {
        assert(s@.take(0) =~= Seq::<char>::empty());
        assert(s@.subrange(0, 0) =~= Seq::<char>::empty());
    }
    while i < n
        invariant
            start <= i <= n,
            n == s@.len(),
            split_ws_run(s@.take(i as int)).pieces == words.deep_view(),
            split_ws_run(s@.take(i as int)).current == s@.subrange(start as int, i as int),
        decreases n - i,
    {
        let c = s.get_char(i);
        proof {
            assert(s@.take(i as int + 1).drop_last() =~= s@.take(i as int));
            assert(s@.take(i as int + 1).last() == s@[i as int]);
        }
        if is_space_char(c) {
            if start < i {
                let word = s.substring_char(start, i);
                let owned = word.to_owned();
                let ghost prev_dv = words.deep_view();
                words.push(owned);
                proof {
                    assert(words.deep_view() =~= prev_dv.push(
                        s@.subrange(start as int, i as int),
                    ));
                }
            }
            i += 1;
            start = i;
            proof {
                assert(s@.subrange(start as int, i as int) =~= Seq::<char>::empty());
            }
        } else {
            proof {
                assert(s@.subrange(start as int, i as int).push(c) =~= s@.subrange(
                    start as int,
                    i as int + 1,
                ));
            }
            i += 1;
        }
    }
    proof {
        assert(s@.take(n as int) =~= s@);
    }
    if start < n {
        let word = s.substring_char(start, n);
        let owned = word.to_owned();
        let ghost prev_dv = words.deep_view();
        words.push(owned);
        proof {
            assert(words.deep_view() =~= prev_dv.push(s@.subrange(start as int, n as int)));
        }
    }
    words
}


// ---------------------------------------------------------------------------
// The typed configuration and its mathematical model.
// ---------------------------------------------------------------------------

/// Model of one virtiofs mount declaration.
pub struct MountView {
    pub tag: Seq<char>,
    pub path: Seq<char>,
    pub with_overlay: bool,
}

/// Model of one symlink declaration.
pub struct SymlinkView {
    pub source: Seq<char>,
    pub target: Seq<char>,
}

/// Model of the fully parsed configuration.
pub struct ConfigView {
    pub virtiofs_mounts: Seq<MountView>,
    pub symlinks: Seq<SymlinkView>,
    pub env_vars: Seq<(Seq<char>, Seq<char>)>,
    pub shell: (Seq<char>, Seq<Seq<char>>),
    pub script: Option<Seq<char>>,
    pub moddir: Option<Seq<char>>,
    pub console: Seq<char>,
    pub chdir: Option<Seq<char>>,
}

/// Model of the parser state while tokens are folded in: shell and console
/// are still optional here, and checked only after the last token.
pub struct ParseAcc {
    pub virtiofs_mounts: Seq<MountView>,
    pub symlinks: Seq<SymlinkView>,
    pub env_vars: Seq<(Seq<char>, Seq<char>)>,
    pub shell: Option<(Seq<char>, Seq<Seq<char>>)>,
    pub script: Option<Seq<char>>,
    pub moddir: Option<Seq<char>>,
    pub console: Option<Seq<char>>,
    pub chdir: Option<Seq<char>>,
}

/// Model of every way a command line is rejected.
pub enum ErrorView {
    ShellCommandEmpty,
    NotBackticked,
    InvalidVirtiofsSpec(Seq<char>),
    InvalidSymlinkSpec(Seq<char>),
    ShellMissing,
    ConsoleMissing,
}

/// Virtiofs mount specification.
#[derive(Debug, Clone, PartialEq)]
pub struct VirtiofsMount {
    /// Virtiofs tag to mount.
    pub tag: String,
    /// Path to mount at.
    pub path: String,
    /// Whether to build a copy-on-write overlay over the share.
    pub with_overlay: bool,
}

impl View for VirtiofsMount {
    type V = MountView;

    open spec fn view(&self) -> MountView {
        MountView { tag: self.tag@, path: self.path@, with_overlay: self.with_overlay }
    }
}

impl DeepView for VirtiofsMount {
    type V = MountView;

    open spec fn deep_view(&self) -> MountView {
        self.view()
    }
}

/// Symlink specification; parsed and validated but never applied.
#[derive(Debug, Clone, PartialEq)]
pub struct Symlink {
    /// Source path for the symlink.
    pub source: String,
    /// Target path to link to.
    pub target: String,
}

impl View for Symlink {
    type V = SymlinkView;

    open spec fn view(&self) -> SymlinkView {
        SymlinkView { source: self.source@, target: self.target@ }
    }
}

impl DeepView for Symlink {
    type V = SymlinkView;

    open spec fn deep_view(&self) -> SymlinkView {
        self.view()
    }
}

/// Why a command line was rejected; `message` renders the reason as text.
#[derive(Debug, Clone, PartialEq)]
pub enum ConfigError {
    /// `init.shell` held an empty command.
    ShellCommandEmpty,
    /// An `init.shell` or `init.script` value was not wrapped in backticks.
    NotBackticked,
    /// An `init.virtiofs` entry did not have two or three `:`-separated fields.
    InvalidVirtiofsSpec(String),
    /// An `init.symlinks` entry had no `:` separator.
    InvalidSymlinkSpec(String),
    /// No `init.shell` token was present.
    ShellMissing,
    /// No `init.console` token was present.
    ConsoleMissing,
}

impl View for ConfigError {
    type V = ErrorView;

    open spec fn view(&self) -> ErrorView {
        match self {
            ConfigError::ShellCommandEmpty => ErrorView::ShellCommandEmpty,
            ConfigError::NotBackticked => ErrorView::NotBackticked,
            ConfigError::InvalidVirtiofsSpec(s) => ErrorView::InvalidVirtiofsSpec(s@),
            ConfigError::InvalidSymlinkSpec(s) => ErrorView::InvalidSymlinkSpec(s@),
            ConfigError::ShellMissing => ErrorView::ShellMissing,
            ConfigError::ConsoleMissing => ErrorView::ConsoleMissing,
        }
    }
}

/// The diagnostic text for each rejection, with the offending substring where
/// one exists.
pub open spec fn error_message_spec(e: ErrorView) -> Seq<char> {
    match e {
        ErrorView::ShellCommandEmpty => "Shell command is empty"@,
        ErrorView::NotBackticked => "Command value must be wrapped in backticks"@,
        ErrorView::InvalidVirtiofsSpec(s) => "Invalid virtiofs mount spec: "@ + s,
        ErrorView::InvalidSymlinkSpec(s) => "Invalid symlink spec: "@ + s,
        ErrorView::ShellMissing => "init.shell is required"@,
        ErrorView::ConsoleMissing => "init.console is required"@,
    }
}

impl ConfigError {
    /// Render the rejection as a line of diagnostic text.
    pub fn message(&self) -> (r: String)
        ensures
            r@ == error_message_spec(self@),
    {
        match self {
            ConfigError::ShellCommandEmpty => String::from_str("Shell command is empty"),
            ConfigError::NotBackticked => String::from_str(
                "Command value must be wrapped in backticks",
            ),
            ConfigError::InvalidVirtiofsSpec(s) => String::from_str(
                "Invalid virtiofs mount spec: ",
            ).concat(s.as_str()),
            ConfigError::InvalidSymlinkSpec(s) => String::from_str(
                "Invalid symlink spec: ",
            ).concat(s.as_str()),
            ConfigError::ShellMissing => String::from_str("init.shell is required"),
            ConfigError::ConsoleMissing => String::from_str("init.console is required"),
        }
    }
}

// ---------------------------------------------------------------------------
// The environment mapping: name -> value, later occurrences overwriting.
// ---------------------------------------------------------------------------

/// `es` with `k` bound to `v`: the first entry named `k` is replaced in
/// place, or a fresh entry is appended when none exists.
pub open spec fn env_insert(
    es: Seq<(Seq<char>, Seq<char>)>,
    k: Seq<char>,
    v: Seq<char>,
) -> Seq<(Seq<char>, Seq<char>)>
    decreases es.len(),
{
    if es.len() == 0 {
        seq![(k, v)]
    } else if es[0].0 == k {
        seq![(k, v)] + es.drop_first()
    } else {
        seq![es[0]] + env_insert(es.drop_first(), k, v)
    }
}

/// The value bound to `k` in `es`, if any (first entry wins; entries are kept
/// unique, so at most one matches).
pub open spec fn env_lookup(es: Seq<(Seq<char>, Seq<char>)>, k: Seq<char>) -> Option<Seq<char>>
    decreases es.len(),
{
    if es.len() == 0 {
        None
    } else if es[0].0 == k {
        Some(es[0].1)
    } else {
        env_lookup(es.drop_first(), k)
    }
}

/// No two entries share a name.
pub open spec fn env_entries_unique(es: Seq<(Seq<char>, Seq<char>)>) -> bool {
    forall|i: int, j: int| 0 <= i < j < es.len() ==> es[i].0 != es[j].0
}

/// One entry of the environment mapping.
#[derive(Debug, Clone, PartialEq)]
pub struct EnvEntry {
    pub name: String,
    pub value: String,
}

/// The environment mapping parsed from `init.env.<NAME>=<value>` tokens:
/// insertion-ordered entries with unique names, a later binding of a name
/// overwriting the earlier one in place.
#[derive(Debug, PartialEq)]
pub struct EnvMap {
    entries: Vec<EnvEntry>,
}

impl View for EnvMap {
    type V = Seq<(Seq<char>, Seq<char>)>;

    closed spec fn view(&self) -> Seq<(Seq<char>, Seq<char>)> {
        Seq::new(self.entries@.len(), |i: int| (self.entries@[i].name@, self.entries@[i].value@))
    }
}

impl EnvMap {
    /// The empty mapping.
    pub fn new() -> (r: Self)
        ensures
            r@ == Seq::<(Seq<char>, Seq<char>)>::empty(),
    {
        let r = EnvMap { entries: Vec::new() };
        proof {
            assert(r@ =~= Seq::<(Seq<char>, Seq<char>)>::empty());
        }
        r
    }

    /// Number of distinct names bound.
    pub fn len(&self) -> (r: usize)
        ensures
            r == self@.len(),
    {
        self.entries.len()
    }

    /// Bind `name` to `value`, overwriting any earlier binding of `name`.
    pub fn insert(&mut self, name: String, value: String)
        ensures
            final(self)@ == env_insert(old(self)@, name@, value@),
    {
        let n = self.entries.len();
        let mut i: usize = 0;
        while i < n
            invariant
                i <= n,
                n == self.entries.len(),
                *self == *old(self),
                forall|j: int| 0 <= j < i ==> self@[j].0 != name@,
            decreases n - i,
        {
            if string_eq(&self.entries[i].name, &name) {
                proof {
                    lemma_env_insert_skips_mismatches(self@, name@, value@, i as int);
                    assert(env_insert(self@.skip(i as int), name@, value@) =~= seq![
                        (name@, value@),
                    ] + self@.skip(i as int).drop_first());
                    assert(self@.take(i as int) + (seq![(name@, value@)] + self@.skip(
                        i as int,
                    ).drop_first()) =~= self@.update(i as int, (name@, value@)));
                }
                let ghost old_view = self@;
                self.entries.set(i, EnvEntry { name, value });
                proof {
                    assert(self@ =~= old_view.update(i as int, (name@, value@)));
                }
                return ;
            }
            i += 1;
        }
        proof {
            lemma_env_insert_skips_mismatches(self@, name@, value@, n as int);
            assert(self@.skip(n as int) =~= Seq::<(Seq<char>, Seq<char>)>::empty());
            assert(self@.take(n as int) + env_insert(
                Seq::<(Seq<char>, Seq<char>)>::empty(),
                name@,
                value@,
            ) =~= self@.push((name@, value@)));
        }
        let ghost old_view = self@;
        self.entries.push(EnvEntry { name, value });
        proof {
            assert(self@ =~= old_view.push((name@, value@)));
        }
    }

    /// The entries in insertion order, as owned pairs.
    pub fn to_pairs(&self) -> (r: Vec<(String, String)>)
        ensures
            r.deep_view() == self@,
    {
        let n = self.entries.len();
        let mut pairs: Vec<(String, String)> = Vec::new();
        proof {
            assert(pairs.deep_view() =~= self@.take(0));
        }
        let mut i: usize = 0;
        while i < n
            invariant
                i <= n,
                n == self.entries.len(),
                pairs.deep_view() == self@.take(i as int),
            decreases n - i,
        {
            let name = self.entries[i].name.clone();
            let value = self.entries[i].value.clone();
            let ghost prev_dv = pairs.deep_view();
            pairs.push((name, value));
            proof {
                assert(pairs.deep_view() =~= prev_dv.push(self@[i as int]));
                assert(self@.take(i as int + 1) =~= self@.take(i as int).push(self@[i as int]));
            }
            i += 1;
        }
        proof {
            assert(self@.take(n as int) =~= self@);
        }
        pairs
    }

    /// The value bound to `name`, if any.
    pub fn get(&self, name: &str) -> (r: Option<&String>)
        ensures
            match r {
                Some(v) => env_lookup(self@, name@) == Some(v@),
                None => env_lookup(self@, name@) is None,
            },
    {
        let n = self.entries.len();
        let mut i: usize = 0;
        while i < n
            invariant
                i <= n,
                n == self.entries.len(),
                forall|j: int| 0 <= j < i ==> self@[j].0 != name@,
            decreases n - i,
        {
            if str_eq(self.entries[i].name.as_str(), name) {
                proof {
                    lemma_env_lookup_skips_mismatches(self@, name@, i as int);
                }
                return Some(&self.entries[i].value);
            }
            i += 1;
        }
        proof {
            lemma_env_lookup_skips_mismatches(self@, name@, n as int);
        }
        None
    }
}

/// When no entry before `i` is named `k`, inserting `k` leaves that prefix
/// unchanged and works on the rest.
proof fn lemma_env_insert_skips_mismatches(
    es: Seq<(Seq<char>, Seq<char>)>,
    k: Seq<char>,
    v: Seq<char>,
    i: int,
)
    requires
        0 <= i <= es.len(),
        forall|j: int| 0 <= j < i ==> es[j].0 != k,
    ensures
        env_insert(es, k, v) == es.take(i) + env_insert(es.skip(i), k, v),
    decreases i,
{
    if i == 0 {
        assert(es.take(0) =~= Seq::<(Seq<char>, Seq<char>)>::empty());
        assert(es.skip(0) =~= es);
        assert(es.take(0) + env_insert(es, k, v) =~= env_insert(es, k, v));
    } else {
        assert(es[0].0 != k);
        assert forall|j: int| 0 <= j < i - 1 implies es.drop_first()[j].0 != k by {
            assert(es.drop_first()[j] == es[j + 1]);
        }
        lemma_env_insert_skips_mismatches(es.drop_first(), k, v, i - 1);
        assert(es.drop_first().take(i - 1) =~= es.take(i).drop_first());
        assert(es.drop_first().skip(i - 1) =~= es.skip(i));
        assert(seq![es[0]] + (es.take(i).drop_first() + env_insert(es.skip(i), k, v)) =~= es.take(
            i,
        ) + env_insert(es.skip(i), k, v));
    }
}

/// When no entry before `i` is named `k`, looking `k` up goes by that prefix.
proof fn lemma_env_lookup_skips_mismatches(es: Seq<(Seq<char>, Seq<char>)>, k: Seq<char>, i: int)
    requires
        0 <= i <= es.len(),
        forall|j: int| 0 <= j < i ==> es[j].0 != k,
    ensures
        i < es.len() && es[i].0 == k ==> env_lookup(es, k) == Some(es[i].1),
        i == es.len() ==> env_lookup(es, k) is None,
    decreases i,
{
    if i == 0 {
    } else {
        assert(es[0].0 != k);
        assert forall|j: int| 0 <= j < i - 1 implies es.drop_first()[j].0 != k by {
            assert(es.drop_first()[j] == es[j + 1]);
        }
        lemma_env_lookup_skips_mismatches(es.drop_first(), k, i - 1);
        if i < es.len() {
            assert(es.drop_first()[i - 1] == es[i]);
        }
    }
}

/// Whether two strings hold the same characters.
pub fn string_eq(a: &String, b: &String) -> (r: bool)
    ensures
        r == (a@ == b@),
{
    a.eq(b)
}

/// Whether two string slices hold the same characters.
pub fn str_eq(a: &str, b: &str) -> (r: bool)
    ensures
        r == (a@ == b@),
{
    let al = a.unicode_len();
    let bl = b.unicode_len();
    if al != bl {
        proof {
            assert(a@ != b@);
        }
        return false;
    }
    let mut i: usize = 0;
    while i < al
        invariant
            i <= al,
            al == a@.len(),
            al == b@.len(),
            forall|j: int| 0 <= j < i ==> a@[j] == b@[j],
        decreases al - i,
    {
        if a.get_char(i) != b.get_char(i) {
            return false;
        }
        i += 1;
    }
    proof {
        assert(a@ =~= b@);
    }
    true
}


// ---------------------------------------------------------------------------
// The keyword parser, specified token by token.
// ---------------------------------------------------------------------------

/// The command string inside a single matching pair of backticks, or a
/// rejection when the value is not wrapped that way. An empty pair yields the
/// empty command string.
pub open spec fn spec_unwrap_backticks(v: Seq<char>) -> Result<Seq<char>, ErrorView> {
    if v.len() >= 2 && v[0] == '`' && v[v.len() - 1] == '`' {
        Ok(v.subrange(1, v.len() - 1))
    } else {
        Err(ErrorView::NotBackticked)
    }
}

/// A shell command split into program and arguments on whitespace; an empty
/// command is a rejection.
pub open spec fn spec_parse_shell_words(cmd: Seq<char>) -> Result<
    (Seq<char>, Seq<Seq<char>>),
    ErrorView,
> {
    let words = split_ws(cmd);
    if words.len() == 0 {
        Err(ErrorView::ShellCommandEmpty)
    } else {
        Ok((words[0], words.drop_first()))
    }
}

/// The mount declarations of the comma-separated pieces, in order: empty
/// pieces are skipped; a piece with two `:`-fields is a plain mount, with
/// three an overlay mount exactly when the third field is `Y`; any other
/// shape, and any piece whose tag or path field is empty (a declared mount
/// must name a channel and a mount point), rejects that piece.
pub open spec fn spec_parse_mounts(pieces: Seq<Seq<char>>) -> Result<Seq<MountView>, ErrorView>
    decreases pieces.len(),
{
    if pieces.len() == 0 {
        Ok(Seq::empty())
    } else {
        match spec_parse_mounts(pieces.drop_last()) {
            Err(e) => Err(e),
            Ok(ms) => {
                let piece = pieces.last();
                if piece.len() == 0 {
                    Ok(ms)
                } else {
                    let fields = split_on(piece, ':');
                    if fields.len() == 2 || fields.len() == 3 {
                        if fields[0].len() == 0 || fields[1].len() == 0 {
                            Err(ErrorView::InvalidVirtiofsSpec(piece))
                        } else if fields.len() == 2 {
                            Ok(
                                ms.push(
                                    MountView {
                                        tag: fields[0],
                                        path: fields[1],
                                        with_overlay: false,
                                    },
                                ),
                            )
                        } else {
                            Ok(
                                ms.push(
                                    MountView {
                                        tag: fields[0],
                                        path: fields[1],
                                        with_overlay: fields[2] == "Y"@,
                                    },
                                ),
                            )
                        }
                    } else {
                        Err(ErrorView::InvalidVirtiofsSpec(piece))
                    }
                }
            },
        }
    }
}

/// The symlink declarations of the comma-separated pieces, in order: empty
/// pieces are skipped; each other piece splits on its first `:` into source
/// and target (the target may hold further colons), and a piece with no `:`
/// rejects.
pub open spec fn spec_parse_symlinks(pieces: Seq<Seq<char>>) -> Result<Seq<SymlinkView>, ErrorView>
    decreases pieces.len(),
{
    if pieces.len() == 0 {
        Ok(Seq::empty())
    } else {
        match spec_parse_symlinks(pieces.drop_last()) {
            Err(e) => Err(e),
            Ok(ls) => {
                let piece = pieces.last();
                if piece.len() == 0 {
                    Ok(ls)
                } else {
                    match find_in(piece, ':') {
                        None => Err(ErrorView::InvalidSymlinkSpec(piece)),
                        Some(i) => Ok(
                            ls.push(
                                SymlinkView {
                                    source: piece.take(i),
                                    target: piece.skip(i + 1),
                                },
                            ),
                        ),
                    }
                }
            },
        }
    }
}

/// The parser state before any token is read.
pub open spec fn acc_init() -> ParseAcc {
    ParseAcc {
        virtiofs_mounts: Seq::empty(),
        symlinks: Seq::empty(),
        env_vars: Seq::empty(),
        shell: None,
        script: None,
        moddir: None,
        console: None,
        chdir: None,
    }
}

/// One token folded into the parser state. Recognized keys replace the field
/// they set (a later occurrence wins); `init.env.<NAME>=<value>` inserts into
/// the mapping; a token with no recognized prefix is ignored.
pub open spec fn apply_param(acc: ParseAcc, p: Seq<char>) -> Result<ParseAcc, ErrorView> {
    if has_prefix(p, "init.virtiofs="@) {
        match spec_parse_mounts(split_on(p.skip("init.virtiofs="@.len() as int), ',')) {
            Err(e) => Err(e),
            Ok(ms) => Ok(ParseAcc { virtiofs_mounts: ms, ..acc }),
        }
    } else if has_prefix(p, "init.symlinks="@) {
        match spec_parse_symlinks(split_on(p.skip("init.symlinks="@.len() as int), ',')) {
            Err(e) => Err(e),
            Ok(ls) => Ok(ParseAcc { symlinks: ls, ..acc }),
        }
    } else if has_prefix(p, "init.env."@) {
        let rest = p.skip("init.env."@.len() as int);
        match find_in(rest, '=') {
            None => Ok(acc),
            Some(i) => Ok(
                ParseAcc {
                    env_vars: env_insert(acc.env_vars, rest.take(i), rest.skip(i + 1)),
                    ..acc
                },
            ),
        }
    } else if has_prefix(p, "init.shell="@) {
        match spec_unwrap_backticks(p.skip("init.shell="@.len() as int)) {
            Err(e) => Err(e),
            Ok(cmd) => match spec_parse_shell_words(cmd) {
                Err(e) => Err(e),
                Ok(sh) => Ok(ParseAcc { shell: Some(sh), ..acc }),
            },
        }
    } else if has_prefix(p, "init.script="@) {
        match spec_unwrap_backticks(p.skip("init.script="@.len() as int)) {
            Err(e) => Err(e),
            Ok(cmd) => Ok(ParseAcc { script: Some(cmd), ..acc }),
        }
    } else if has_prefix(p, "init.moddir="@) {
        Ok(ParseAcc { moddir: Some(p.skip("init.moddir="@.len() as int)), ..acc })
    } else if has_prefix(p, "init.console="@) {
        Ok(ParseAcc { console: Some(p.skip("init.console="@.len() as int)), ..acc })
    } else if has_prefix(p, "init.chdir="@) {
        Ok(ParseAcc { chdir: Some(p.skip("init.chdir="@.len() as int)), ..acc })
    } else {
        Ok(acc)
    }
}

/// All tokens folded in order into the parser state; the first rejection
/// stops the fold.
pub open spec fn apply_params(ps: Seq<Seq<char>>) -> Result<ParseAcc, ErrorView>
    decreases ps.len(),
{
    if ps.len() == 0 {
        Ok(acc_init())
    } else {
        match apply_params(ps.drop_last()) {
            Err(e) => Err(e),
            Ok(acc) => apply_param(acc, ps.last()),
        }
    }
}

/// The complete parse of a raw command line: tokenize, fold every token, then
/// require `init.shell` and `init.console` to have been set.
pub open spec fn spec_parse(s: Seq<char>) -> Result<ConfigView, ErrorView> {
    match apply_params(tokenize(s)) {
        Err(e) => Err(e),
        Ok(acc) => match acc.shell {
            None => Err(ErrorView::ShellMissing),
            Some(sh) => match acc.console {
                None => Err(ErrorView::ConsoleMissing),
                Some(con) => Ok(
                    ConfigView {
                        virtiofs_mounts: acc.virtiofs_mounts,
                        symlinks: acc.symlinks,
                        env_vars: acc.env_vars,
                        shell: sh,
                        script: acc.script,
                        moddir: acc.moddir,
                        console: con,
                        chdir: acc.chdir,
                    },
                ),
            },
        },
    }
}

/// A rejected prefix of the pieces rejects the whole list, with the same
/// rejection.
proof fn lemma_parse_mounts_err_sticks(pieces: Seq<Seq<char>>, k: int)
    requires
        0 <= k <= pieces.len(),
        spec_parse_mounts(pieces.take(k)) is Err,
    ensures
        spec_parse_mounts(pieces) == spec_parse_mounts(pieces.take(k)),
    decreases pieces.len(),
{
    if k == pieces.len() {
        assert(pieces.take(k) =~= pieces);
    } else {
        assert(pieces.drop_last().take(k) =~= pieces.take(k));
        lemma_parse_mounts_err_sticks(pieces.drop_last(), k);
    }
}

/// A rejected prefix of the pieces rejects the whole list, with the same
/// rejection.
proof fn lemma_parse_symlinks_err_sticks(pieces: Seq<Seq<char>>, k: int)
    requires
        0 <= k <= pieces.len(),
        spec_parse_symlinks(pieces.take(k)) is Err,
    ensures
        spec_parse_symlinks(pieces) == spec_parse_symlinks(pieces.take(k)),
    decreases pieces.len(),
{
    if k == pieces.len() {
        assert(pieces.take(k) =~= pieces);
    } else {
        assert(pieces.drop_last().take(k) =~= pieces.take(k));
        lemma_parse_symlinks_err_sticks(pieces.drop_last(), k);
    }
}

/// A rejected prefix of the token list rejects the whole command line, with
/// the same rejection.
pub proof fn lemma_apply_params_err_sticks(ps: Seq<Seq<char>>, k: int)
    requires
        0 <= k <= ps.len(),
        apply_params(ps.take(k)) is Err,
    ensures
        apply_params(ps) == apply_params(ps.take(k)),
    decreases ps.len(),
{
    if k == ps.len() {
        assert(ps.take(k) =~= ps);
    } else {
        assert(ps.drop_last().take(k) =~= ps.take(k));
        lemma_apply_params_err_sticks(ps.drop_last(), k);
    }
}

// ---------------------------------------------------------------------------
// Executable keyword parsing.
// ---------------------------------------------------------------------------

/// Unwrap a backtick-wrapped command value.
///
/// Example: "`echo hello world`" becomes "echo hello world".
pub fn parse_backtick_command(value: &str) -> (r: Result<String, ConfigError>)
    ensures
        match r {
            Ok(cmd) => spec_unwrap_backticks(value@) == Ok::<Seq<char>, ErrorView>(cmd@),
            Err(e) => spec_unwrap_backticks(value@) == Err::<Seq<char>, ErrorView>(e@),
        },
{
    let n = value.unicode_len();
    if n < 2 {
        return Err(ConfigError::NotBackticked);
    }
    if value.get_char(0) != '`' || value.get_char(n - 1) != '`' {
        return Err(ConfigError::NotBackticked);
    }
    let inner = value.substring_char(1, n - 1);
    Ok(inner.to_owned())
}

/// Split an unwrapped `init.shell` value into program and arguments.
///
/// Example: "sh -i" becomes ("sh", ["-i"]); an empty command is rejected.
pub fn parse_shell_command(value: &str) -> (r: Result<(String, Vec<String>), ConfigError>)
    ensures
        match r {
            Ok(sh) => spec_parse_shell_words(value@) == Ok::<(Seq<char>, Seq<Seq<char>>), ErrorView>(
                (sh.0@, sh.1.deep_view()),
            ),
            Err(e) => spec_parse_shell_words(value@) == Err::<(Seq<char>, Seq<Seq<char>>), ErrorView>(
                e@,
            ),
        },
{
    let mut words = split_whitespace_words(value);
    if words.len() == 0 {
        return Err(ConfigError::ShellCommandEmpty);
    }
    let ghost words_dv = words.deep_view();
    let program = words.remove(0);
    proof {
        assert(words.deep_view() =~= words_dv.drop_first());
        assert(program@ == words_dv[0]);
    }
    Ok((program, words))
}

/// Parse an `init.virtiofs` value: comma-separated mount declarations.
/// A declaration with an empty tag or path field is rejected: every mount
/// must name a channel and a mount point.
pub fn parse_virtiofs_mounts(value: &str) -> (r: Result<Vec<VirtiofsMount>, ConfigError>)
    ensures
        match r {
            Ok(ms) => spec_parse_mounts(split_on(value@, ',')) == Ok::<Seq<MountView>, ErrorView>(
                ms.deep_view(),
            ),
            Err(e) => spec_parse_mounts(split_on(value@, ',')) == Err::<Seq<MountView>, ErrorView>(
                e@,
            ),
        },
{
    let pieces = split_char(value, ',');
    let ghost pieces_dv = pieces.deep_view();
    let mut mounts: Vec<VirtiofsMount> = Vec::new();
    let n = pieces.len();
    proof {
        assert(pieces_dv.take(0) =~= Seq::<Seq<char>>::empty());
        assert(mounts.deep_view() =~= Seq::<MountView>::empty());
    }
    let mut k: usize = 0;
    while k < n
        invariant
            k <= n,
            n == pieces.len(),
            pieces_dv == pieces.deep_view(),
            pieces_dv == split_on(value@, ','),
            spec_parse_mounts(pieces_dv.take(k as int)) == Ok::<Seq<MountView>, ErrorView>(
                mounts.deep_view(),
            ),
        decreases n - k,
    {
        proof {
            assert(pieces_dv.take(k as int + 1).drop_last() =~= pieces_dv.take(k as int));
            assert(pieces_dv.take(k as int + 1).last() == pieces_dv[k as int]);
            assert(pieces_dv[k as int] == pieces@[k as int]@);
        }
        let piece = &pieces[k];
        if !piece.as_str().is_empty() {
            let fields = split_char(piece.as_str(), ':');
            let ghost fields_dv = fields.deep_view();
            proof {
                assert(fields_dv == split_on(pieces_dv[k as int], ':'));
                assert(fields_dv.len() == fields@.len());
            }
            if fields.len() == 2 || fields.len() == 3 {
                let tag = fields[0].clone();
                let path = fields[1].clone();
                proof {
                    assert(tag@ == fields_dv[0]);
                    assert(path@ == fields_dv[1]);
                }
                if tag.as_str().is_empty() || path.as_str().is_empty() {
                    let offending = piece.clone();
                    proof {
                        assert(offending@ == pieces_dv[k as int]);
                        assert(spec_parse_mounts(pieces_dv.take(k as int + 1))
                            == Err::<Seq<MountView>, ErrorView>(ErrorView::InvalidVirtiofsSpec(
                            pieces_dv[k as int],
                        )));
                        lemma_parse_mounts_err_sticks(pieces_dv, k as int + 1);
                        assert(spec_parse_mounts(split_on(value@, ','))
                            == Err::<Seq<MountView>, ErrorView>(ErrorView::InvalidVirtiofsSpec(
                            offending@,
                        )));
                    }
                    return Err(ConfigError::InvalidVirtiofsSpec(offending));
                }
                if fields.len() == 2 {
                    let ghost prev_dv = mounts.deep_view();
                    mounts.push(VirtiofsMount { tag, path, with_overlay: false });
                    proof {
                        assert(mounts.deep_view() =~= prev_dv.push(
                            MountView {
                                tag: fields_dv[0],
                                path: fields_dv[1],
                                with_overlay: false,
                            },
                        ));
                    }
                } else {
                    let with_overlay = str_eq(fields[2].as_str(), "Y");
                    proof {
                        assert(fields@[2]@ == fields_dv[2]);
                    }
                    let ghost prev_dv = mounts.deep_view();
                    mounts.push(VirtiofsMount { tag, path, with_overlay });
                    proof {
                        assert(mounts.deep_view() =~= prev_dv.push(
                            MountView {
                                tag: fields_dv[0],
                                path: fields_dv[1],
                                with_overlay: fields_dv[2] == "Y"@,
                            },
                        ));
                    }
                }
            } else {
                let offending = piece.clone();
                proof {
                    assert(offending@ == pieces_dv[k as int]);
                    assert(spec_parse_mounts(pieces_dv.take(k as int + 1))
                        == Err::<Seq<MountView>, ErrorView>(ErrorView::InvalidVirtiofsSpec(
                        pieces_dv[k as int],
                    )));
                    lemma_parse_mounts_err_sticks(pieces_dv, k as int + 1);
                    assert(spec_parse_mounts(split_on(value@, ','))
                        == Err::<Seq<MountView>, ErrorView>(ErrorView::InvalidVirtiofsSpec(
                        offending@,
                    )));
                }
                return Err(ConfigError::InvalidVirtiofsSpec(offending));
            }
        }
        k += 1;
    }
    proof {
        assert(pieces_dv.take(n as int) =~= pieces_dv);
    }
    Ok(mounts)
}

/// Parse an `init.symlinks` value: comma-separated `source:target` pairs.
pub fn parse_symlinks(value: &str) -> (r: Result<Vec<Symlink>, ConfigError>)
    ensures
        match r {
            Ok(ls) => spec_parse_symlinks(split_on(value@, ',')) == Ok::<Seq<SymlinkView>, ErrorView>(
                ls.deep_view(),
            ),
            Err(e) => spec_parse_symlinks(split_on(value@, ',')) == Err::<
                Seq<SymlinkView>,
                ErrorView,
            >(e@),
        },
{
    let pieces = split_char(value, ',');
    let ghost pieces_dv = pieces.deep_view();
    let mut links: Vec<Symlink> = Vec::new();
    let n = pieces.len();
    proof {
        assert(pieces_dv.take(0) =~= Seq::<Seq<char>>::empty());
        assert(links.deep_view() =~= Seq::<SymlinkView>::empty());
    }
    let mut k: usize = 0;
    while k < n
        invariant
            k <= n,
            n == pieces.len(),
            pieces_dv == pieces.deep_view(),
            pieces_dv == split_on(value@, ','),
            spec_parse_symlinks(pieces_dv.take(k as int)) == Ok::<Seq<SymlinkView>, ErrorView>(
                links.deep_view(),
            ),
        decreases n - k,
    {
        proof {
            assert(pieces_dv.take(k as int + 1).drop_last() =~= pieces_dv.take(k as int));
            assert(pieces_dv.take(k as int + 1).last() == pieces_dv[k as int]);
            assert(pieces_dv[k as int] == pieces@[k as int]@);
        }
        let piece = &pieces[k];
        if !piece.as_str().is_empty() {
            match find_char(piece.as_str(), ':') {
                None => {
                    let offending = piece.clone();
                    proof {
                        assert(offending@ == pieces_dv[k as int]);
                        assert(spec_parse_symlinks(pieces_dv.take(k as int + 1))
                            == Err::<Seq<SymlinkView>, ErrorView>(ErrorView::InvalidSymlinkSpec(
                            pieces_dv[k as int],
                        )));
                        lemma_parse_symlinks_err_sticks(pieces_dv, k as int + 1);
                        assert(spec_parse_symlinks(split_on(value@, ','))
                            == Err::<Seq<SymlinkView>, ErrorView>(ErrorView::InvalidSymlinkSpec(
                            offending@,
                        )));
                    }
                    return Err(ConfigError::InvalidSymlinkSpec(offending));
                },
                Some(ci) => {
                    proof {
                        lemma_find_in(pieces_dv[k as int], ':');
                    }
                    let plen = piece.as_str().unicode_len();
                    let source = piece.as_str().substring_char(0, ci).to_owned();
                    let target = piece.as_str().substring_char(ci + 1, plen).to_owned();
                    proof {
                        assert(source@ =~= pieces_dv[k as int].take(ci as int));
                        assert(target@ =~= pieces_dv[k as int].skip(ci as int + 1));
                    }
                    let ghost prev_dv = links.deep_view();
                    links.push(Symlink { source, target });
                    proof {
                        assert(links.deep_view() =~= prev_dv.push(
                            SymlinkView {
                                source: pieces_dv[k as int].take(ci as int),
                                target: pieces_dv[k as int].skip(ci as int + 1),
                            },
                        ));
                    }
                },
            }
        }
        k += 1;
    }
    proof {
        assert(pieces_dv.take(n as int) =~= pieces_dv);
    }
    Ok(links)
}


// ---------------------------------------------------------------------------
// The parsed configuration and the full parse.
// ---------------------------------------------------------------------------

/// The view of an optional string value.
pub open spec fn opt_string_view(o: Option<String>) -> Option<Seq<char>> {
    match o {
        Some(s) => Some(s@),
        None => None,
    }
}

/// The view of an optional shell command (program and arguments).
pub open spec fn opt_shell_view(o: Option<(String, Vec<String>)>) -> Option<
    (Seq<char>, Seq<Seq<char>>),
> {
    match o {
        Some(sh) => Some((sh.0@, sh.1.deep_view())),
        None => None,
    }
}

/// Parsed init configuration from the kernel command line.
#[derive(Debug, PartialEq)]
pub struct Config {
    /// Virtiofs mounts to create.
    pub virtiofs_mounts: Vec<VirtiofsMount>,
    /// Symlinks to create (parsed but never applied).
    pub symlinks: Vec<Symlink>,
    /// Environment variables to set.
    pub env_vars: EnvMap,
    /// Shell program and arguments; required.
    pub shell: (String, Vec<String>),
    /// Optional script to execute (parsed but never executed).
    pub script: Option<String>,
    /// Directory to load kernel modules from; when absent, none are loaded.
    pub moddir: Option<String>,
    /// Console device to use; required.
    pub console: String,
    /// Optional directory to change to before spawning the shell.
    pub chdir: Option<String>,
}

impl View for Config {
    type V = ConfigView;

    open spec fn view(&self) -> ConfigView {
        ConfigView {
            virtiofs_mounts: self.virtiofs_mounts.deep_view(),
            symlinks: self.symlinks.deep_view(),
            env_vars: self.env_vars@,
            shell: (self.shell.0@, self.shell.1.deep_view()),
            script: opt_string_view(self.script),
            moddir: opt_string_view(self.moddir),
            console: self.console@,
            chdir: opt_string_view(self.chdir),
        }
    }
}

/// Parse the kernel command line into a `Config`.
///
/// Recognized keys: `init.virtiofs`, `init.symlinks`, `init.env.<NAME>`,
/// `init.shell`, `init.script`, `init.moddir`, `init.console`, `init.chdir`;
/// `init.shell` and `init.script` values must be wrapped in backticks;
/// `init.shell` and `init.console` are required. Any other token is ignored.
/// The returned value, success or rejection, is exactly `spec_parse` of the
/// input.
pub fn parse_cmdline(cmdline: &str) -> (r: Result<Config, ConfigError>)
    ensures
        match r {
            Ok(c) => spec_parse(cmdline@) == Ok::<ConfigView, ErrorView>(c@),
            Err(e) => spec_parse(cmdline@) == Err::<ConfigView, ErrorView>(e@),
        },
{
    let params = parse_cmdline_params(cmdline);
    let ghost params_dv = params.deep_view();
    let n = params.len();

    let mut virtiofs_mounts: Vec<VirtiofsMount> = Vec::new();
    let mut symlinks: Vec<Symlink> = Vec::new();
    let mut env_vars = EnvMap::new();
    let mut shell: Option<(String, Vec<String>)> = None;
    let mut script: Option<String> = None;
    let mut moddir: Option<String> = None;
    let mut console: Option<String> = None;
    let mut chdir: Option<String> = None;

    proof {
        assert(params_dv.take(0) =~= Seq::<Seq<char>>::empty());
        assert(virtiofs_mounts.deep_view() =~= Seq::<MountView>::empty());
        assert(symlinks.deep_view() =~= Seq::<SymlinkView>::empty());
    }
    let mut i: usize = 0;
    while i < n
        invariant
            i <= n,
            n == params.len(),
            params_dv == params.deep_view(),
            params_dv == tokenize(cmdline@),
            apply_params(params_dv.take(i as int)) == Ok::<ParseAcc, ErrorView>(
                ParseAcc {
                    virtiofs_mounts: virtiofs_mounts.deep_view(),
                    symlinks: symlinks.deep_view(),
                    env_vars: env_vars@,
                    shell: opt_shell_view(shell),
                    script: opt_string_view(script),
                    moddir: opt_string_view(moddir),
                    console: opt_string_view(console),
                    chdir: opt_string_view(chdir),
                },
            ),
        decreases n - i,
    {
        proof {
            assert(params_dv.take(i as int + 1).drop_last() =~= params_dv.take(i as int));
            assert(params_dv.take(i as int + 1).last() == params_dv[i as int]);
            assert(params_dv[i as int] == params@[i as int]@);
        }
        let param = &params[i];
        let p = param.as_str();
        if let Some(v) = strip_prefix_of(p, "init.virtiofs=") {
            match parse_virtiofs_mounts(v) {
                Ok(ms) => {
                    virtiofs_mounts = ms;
                },
                Err(e) => {
                    proof {
                        lemma_apply_params_err_sticks(params_dv, i as int + 1);
                    }
                    return Err(e);
                },
            }
        } else if let Some(v) = strip_prefix_of(p, "init.symlinks=") {
            match parse_symlinks(v) {
                Ok(ls) => {
                    symlinks = ls;
                },
                Err(e) => {
                    proof {
                        lemma_apply_params_err_sticks(params_dv, i as int + 1);
                    }
                    return Err(e);
                },
            }
        } else if let Some(rest) = strip_prefix_of(p, "init.env.") {
            if let Some(eq_idx) = find_char(rest, '=') {
                proof {
                    lemma_find_in(rest@, '=');
                }
                let rlen = rest.unicode_len();
                let name = rest.substring_char(0, eq_idx).to_owned();
                let value = rest.substring_char(eq_idx + 1, rlen).to_owned();
                proof {
                    assert(name@ =~= rest@.take(eq_idx as int));
                    assert(value@ =~= rest@.skip(eq_idx as int + 1));
                }
                env_vars.insert(name, value);
            }
        } else if let Some(v) = strip_prefix_of(p, "init.shell=") {
            match parse_backtick_command(v) {
                Err(e) => {
                    proof {
                        lemma_apply_params_err_sticks(params_dv, i as int + 1);
                    }
                    return Err(e);
                },
                Ok(cmd) => {
                    match parse_shell_command(cmd.as_str()) {
                        Err(e) => {
                            proof {
                                lemma_apply_params_err_sticks(params_dv, i as int + 1);
                            }
                            return Err(e);
                        },
                        Ok(sh) => {
                            shell = Some(sh);
                        },
                    }
                },
            }
        } else if let Some(v) = strip_prefix_of(p, "init.script=") {
            match parse_backtick_command(v) {
                Err(e) => {
                    proof {
                        lemma_apply_params_err_sticks(params_dv, i as int + 1);
                    }
                    return Err(e);
                },
                Ok(cmd) => {
                    script = Some(cmd);
                },
            }
        } else if let Some(v) = strip_prefix_of(p, "init.moddir=") {
            moddir = Some(v.to_owned());
        } else if let Some(v) = strip_prefix_of(p, "init.console=") {
            console = Some(v.to_owned());
        } else if let Some(v) = strip_prefix_of(p, "init.chdir=") {
            chdir = Some(v.to_owned());
        }
        i += 1;
    }
    proof {
        assert(params_dv.take(n as int) =~= params_dv);
    }
    let shell = match shell {
        Some(sh) => sh,
        None => {
            return Err(ConfigError::ShellMissing);
        },
    };
    let console = match console {
        Some(c) => c,
        None => {
            return Err(ConfigError::ConsoleMissing);
        },
    };
    Ok(
        Config {
            virtiofs_mounts,
            symlinks,
            env_vars,
            shell,
            script,
            moddir,
            console,
            chdir,
        },
    )
}


// ---------------------------------------------------------------------------
// Laws of the parser.
// ---------------------------------------------------------------------------

/// The shell value a token sets, if it is a well-formed `init.shell=` token.
pub open spec fn shell_of_param(p: Seq<char>) -> Option<(Seq<char>, Seq<Seq<char>>)> {
    if has_prefix(p, "init.shell="@) {
        match spec_unwrap_backticks(p.skip("init.shell="@.len() as int)) {
            Err(_) => None,
            Ok(cmd) => match spec_parse_shell_words(cmd) {
                Err(_) => None,
                Ok(sh) => Some(sh),
            },
        }
    } else {
        None
    }
}

/// The console value a token sets, if it is an `init.console=` token.
pub open spec fn console_of_param(p: Seq<char>) -> Option<Seq<char>> {
    if has_prefix(p, "init.console="@) {
        Some(p.skip("init.console="@.len() as int))
    } else {
        None
    }
}

/// The shell value of the last token that sets one, if any.
pub open spec fn last_shell(ps: Seq<Seq<char>>) -> Option<(Seq<char>, Seq<Seq<char>>)>
    decreases ps.len(),
{
    if ps.len() == 0 {
        None
    } else {
        match shell_of_param(ps.last()) {
            Some(sh) => Some(sh),
            None => last_shell(ps.drop_last()),
        }
    }
}

/// The console value of the last token that sets one, if any.
pub open spec fn last_console(ps: Seq<Seq<char>>) -> Option<Seq<char>>
    decreases ps.len(),
{
    if ps.len() == 0 {
        None
    } else {
        match console_of_param(ps.last()) {
            Some(c) => Some(c),
            None => last_console(ps.drop_last()),
        }
    }
}

/// A token that starts with `a` cannot also start with `b` when the two
/// differ at some shared position.
proof fn lemma_prefixes_exclude(p: Seq<char>, a: Seq<char>, b: Seq<char>, j: int)
    requires
        0 <= j < a.len(),
        j < b.len(),
        a[j] != b[j],
        has_prefix(p, a),
    ensures
        !has_prefix(p, b),
{
    if has_prefix(p, b) {
        assert(p.take(a.len() as int)[j] == p[j]);
        assert(p.take(b.len() as int)[j] == p[j]);
    }
}

/// No token is both an `init.console=` token and one of the other recognized
/// keys, and none is both `init.shell=` and one of the keys checked before
/// it.
proof fn lemma_key_prefixes_distinct(p: Seq<char>)
    ensures
        has_prefix(p, "init.virtiofs="@) ==> !has_prefix(p, "init.shell="@) && !has_prefix(
            p,
            "init.console="@,
        ),
        has_prefix(p, "init.symlinks="@) ==> !has_prefix(p, "init.shell="@) && !has_prefix(
            p,
            "init.console="@,
        ),
        has_prefix(p, "init.env."@) ==> !has_prefix(p, "init.shell="@) && !has_prefix(
            p,
            "init.console="@,
        ),
        has_prefix(p, "init.shell="@) ==> !has_prefix(p, "init.console="@),
        has_prefix(p, "init.script="@) ==> !has_prefix(p, "init.console="@),
        has_prefix(p, "init.moddir="@) ==> !has_prefix(p, "init.console="@),
{
    reveal_strlit("init.virtiofs=");
    reveal_strlit("init.symlinks=");
    reveal_strlit("init.env.");
    reveal_strlit("init.shell=");
    reveal_strlit("init.script=");
    reveal_strlit("init.moddir=");
    reveal_strlit("init.console=");
    if has_prefix(p, "init.virtiofs="@) {
        lemma_prefixes_exclude(p, "init.virtiofs="@, "init.shell="@, 5);
        lemma_prefixes_exclude(p, "init.virtiofs="@, "init.console="@, 5);
    }
    if has_prefix(p, "init.symlinks="@) {
        lemma_prefixes_exclude(p, "init.symlinks="@, "init.shell="@, 6);
        lemma_prefixes_exclude(p, "init.symlinks="@, "init.console="@, 5);
    }
    if has_prefix(p, "init.env."@) {
        lemma_prefixes_exclude(p, "init.env."@, "init.shell="@, 5);
        lemma_prefixes_exclude(p, "init.env."@, "init.console="@, 5);
    }
    if has_prefix(p, "init.shell="@) {
        lemma_prefixes_exclude(p, "init.shell="@, "init.console="@, 5);
    }
    if has_prefix(p, "init.script="@) {
        lemma_prefixes_exclude(p, "init.script="@, "init.console="@, 5);
    }
    if has_prefix(p, "init.moddir="@) {
        lemma_prefixes_exclude(p, "init.moddir="@, "init.console="@, 5);
    }
}

/// When every token parses, the folded shell and console are exactly the
/// values of the last token that set each: a later occurrence of a key wins,
/// and a key no token sets stays unset.
pub proof fn lemma_shell_console_last_occurrence(ps: Seq<Seq<char>>)
    requires
        apply_params(ps) is Ok,
    ensures
        match apply_params(ps) {
            Ok(acc) => acc.shell == last_shell(ps) && acc.console == last_console(ps),
            Err(_) => false,
        },
    decreases ps.len(),
{
    if ps.len() > 0 {
        let p = ps.last();
        match apply_params(ps.drop_last()) {
            Err(_) => {
                assert(false);
            },
            Ok(acc0) => {
                lemma_shell_console_last_occurrence(ps.drop_last());
                lemma_key_prefixes_distinct(p);
            },
        }
    }
}

/// For every command line whose tokens all parse: when both `init.shell` and
/// `init.console` occur, parsing succeeds and returns the last occurrence of
/// each; when `init.shell` never occurs, parsing fails naming the shell as
/// missing; when it occurs but `init.console` never does, parsing fails
/// naming the console as missing.
pub proof fn lemma_parse_success_and_required_keys(s: Seq<char>)
    requires
        apply_params(tokenize(s)) is Ok,
    ensures
        last_shell(tokenize(s)) is Some && last_console(tokenize(s)) is Some ==> match spec_parse(
            s,
        ) {
            Ok(c) => Some(c.shell) == last_shell(tokenize(s)) && Some(c.console) == last_console(
                tokenize(s),
            ),
            Err(_) => false,
        },
        last_shell(tokenize(s)) is None ==> spec_parse(s) == Err::<ConfigView, ErrorView>(
            ErrorView::ShellMissing,
        ),
        last_shell(tokenize(s)) is Some && last_console(tokenize(s)) is None ==> spec_parse(s)
            == Err::<ConfigView, ErrorView>(ErrorView::ConsoleMissing),
{
    lemma_shell_console_last_occurrence(tokenize(s));
}

/// One comma-free mount spec string round-trips: `tag:path` parses to that
/// tag and path with the overlay off; `tag:path:<third>` parses the same way
/// with the overlay on exactly when the third field is `Y`. The tag and path
/// must be non-empty: a declared mount names a channel and a mount point,
/// and the parser rejects a spec with an empty field.
pub proof fn lemma_mount_spec_round_trip(tag: Seq<char>, path: Seq<char>, third: Option<Seq<char>>)
    requires
        tag.len() > 0,
        path.len() > 0,
        forall|i: int| 0 <= i < tag.len() ==> tag[i] != ':',
        forall|i: int| 0 <= i < path.len() ==> path[i] != ':',
        match third {
            Some(t) => forall|i: int| 0 <= i < t.len() ==> t[i] != ':',
            None => true,
        },
    ensures
        match third {
            None => spec_parse_mounts(seq![tag + seq![':'] + path]) == Ok::<
                Seq<MountView>,
                ErrorView,
            >(seq![MountView { tag, path, with_overlay: false }]),
            Some(t) => spec_parse_mounts(seq![tag + seq![':'] + path + seq![':'] + t]) == Ok::<
                Seq<MountView>,
                ErrorView,
            >(seq![MountView { tag, path, with_overlay: t == "Y"@ }]),
        },
{
    lemma_split_run_no_sep(tag, ':');
    match third {
        None => {
            let piece = tag + seq![':'] + path;
            lemma_split_sep_extends(tag, path, ':');
            assert(split_on(piece, ':') =~= seq![tag, path]);
            let pieces = seq![piece];
            assert(pieces.drop_last() =~= Seq::<Seq<char>>::empty());
            assert(pieces.last() == piece);
            assert(piece.len() > 0);
            assert(spec_parse_mounts(Seq::<Seq<char>>::empty()) == Ok::<Seq<MountView>, ErrorView>(
                Seq::<MountView>::empty(),
            ));
            assert(spec_parse_mounts(pieces) == Ok::<Seq<MountView>, ErrorView>(
                Seq::<MountView>::empty().push(MountView { tag, path, with_overlay: false }),
            ));
            assert(Seq::<MountView>::empty().push(MountView { tag, path, with_overlay: false })
                =~= seq![MountView { tag, path, with_overlay: false }]);
        },
        Some(t) => {
            let two = tag + seq![':'] + path;
            let piece = two + seq![':'] + t;
            lemma_split_sep_extends(tag, path, ':');
            lemma_split_sep_extends(two, t, ':');
            assert(split_run(two, ':').pieces.push(split_run(two, ':').current) =~= seq![
                tag,
                path,
            ]);
            assert(split_on(piece, ':') =~= seq![tag, path, t]);
            assert(tag + seq![':'] + path + seq![':'] + t == piece);
            let pieces = seq![piece];
            assert(pieces.drop_last() =~= Seq::<Seq<char>>::empty());
            assert(pieces.last() == piece);
            assert(piece.len() > 0);
            assert(spec_parse_mounts(Seq::<Seq<char>>::empty()) == Ok::<Seq<MountView>, ErrorView>(
                Seq::<MountView>::empty(),
            ));
            assert(spec_parse_mounts(pieces) == Ok::<Seq<MountView>, ErrorView>(
                Seq::<MountView>::empty().push(MountView { tag, path, with_overlay: t == "Y"@ }),
            ));
            assert(Seq::<MountView>::empty().push(
                MountView { tag, path, with_overlay: t == "Y"@ },
            ) =~= seq![MountView { tag, path, with_overlay: t == "Y"@ }]);
        },
    }
}

/// A separator-free string splits into itself alone: no piece is finished
/// and the whole string is the piece being built.
proof fn lemma_split_run_no_sep(s: Seq<char>, sep: char)
    requires
        forall|i: int| 0 <= i < s.len() ==> s[i] != sep,
    ensures
        split_run(s, sep) == (SplitState { pieces: Seq::empty(), current: s }),
    decreases s.len(),
{
    if s.len() == 0 {
        assert(s =~= Seq::<char>::empty());
    } else {
        lemma_split_run_no_sep(s.drop_last(), sep);
        assert(s.drop_last().push(s.last()) =~= s);
    }
}

/// Scanning one separator and then a separator-free tail finishes the piece
/// built so far and leaves the tail as the open piece.
proof fn lemma_split_sep_extends(a: Seq<char>, tail: Seq<char>, sep: char)
    requires
        forall|i: int| 0 <= i < tail.len() ==> tail[i] != sep,
    ensures
        split_run(a + seq![sep] + tail, sep) == (SplitState {
            pieces: split_run(a, sep).pieces.push(split_run(a, sep).current),
            current: tail,
        }),
    decreases tail.len(),
{
    if tail.len() == 0 {
        assert(tail =~= Seq::<char>::empty());
        assert(a + seq![sep] + tail =~= a + seq![sep]);
        assert((a + seq![sep]).drop_last() =~= a);
        assert((a + seq![sep]).last() == sep);
        assert((a + seq![sep]).len() > 0);
    } else {
        assert forall|i: int| 0 <= i < tail.drop_last().len() implies tail.drop_last()[i] != sep by {
            assert(tail.drop_last()[i] == tail[i]);
        }
        lemma_split_sep_extends(a, tail.drop_last(), sep);
        let w = a + seq![sep] + tail;
        assert(w.len() > 0);
        assert(w.drop_last() =~= a + seq![sep] + tail.drop_last());
        assert(w.last() == tail.last());
        assert(w.last() != sep);
        assert(tail.drop_last().push(tail.last()) =~= tail);
    }
}

/// Folding the same scanner state over the same further characters gives the
/// same state: splitting looks only at the state so far.
proof fn lemma_split_ws_run_append(a1: Seq<char>, a2: Seq<char>, b: Seq<char>)
    requires
        split_ws_run(a1) == split_ws_run(a2),
    ensures
        split_ws_run(a1 + b) == split_ws_run(a2 + b),
    decreases b.len(),
{
    if b.len() == 0 {
        assert(a1 + b =~= a1);
        assert(a2 + b =~= a2);
    } else {
        lemma_split_ws_run_append(a1, a2, b.drop_last());
        assert((a1 + b).drop_last() =~= a1 + b.drop_last());
        assert((a2 + b).drop_last() =~= a2 + b.drop_last());
        assert((a1 + b).len() > 0);
        assert((a2 + b).len() > 0);
        assert((a1 + b).last() == b.last());
        assert((a2 + b).last() == b.last());
    }
}

/// Whitespace splitting collapses runs of whitespace: doubling a whitespace
/// character changes nothing, so the words of a command are independent of
/// how much whitespace separates them.
pub proof fn lemma_split_ws_extra_whitespace(a: Seq<char>, b: Seq<char>, c: char)
    requires
        is_space(c),
    ensures
        split_ws(a + seq![c] + seq![c] + b) == split_ws(a + seq![c] + b),
{
    let a1 = a + seq![c];
    let a2 = a1 + seq![c];
    assert(a1.drop_last() =~= a);
    assert(a1.last() == c);
    assert(a1.len() > 0);
    assert(a2.drop_last() =~= a1);
    assert(a2.last() == c);
    assert(a2.len() > 0);
    assert(split_ws_run(a1).current =~= Seq::<char>::empty());
    assert(split_ws_run(a2) == split_ws_run(a1));
    lemma_split_ws_run_append(a2, a1, b);
    assert(a2 + b =~= a + seq![c] + seq![c] + b);
    assert(a1 + b =~= a + seq![c] + b);
}


/// A backtick-wrapped region is stored verbatim: unwrapping puts back
/// exactly the characters between the backticks, with no collapsing of
/// whitespace. An `init.script` value is therefore preserved as written,
/// while an `init.shell` value is split into words only after this exact
/// unwrap.
pub proof fn lemma_backtick_region_verbatim(cmd: Seq<char>)
    ensures
        spec_unwrap_backticks(seq!['`'] + cmd + seq!['`']) == Ok::<Seq<char>, ErrorView>(cmd),
{
    let w = seq!['`'] + cmd + seq!['`'];
    assert(w[0] == '`');
    assert(w[w.len() - 1] == '`');
    assert(w.subrange(1, w.len() - 1) =~= cmd);
}


/// Every mount the parser accepts satisfies the declared-mount invariant:
/// its tag and its path are non-empty.
pub proof fn lemma_parsed_mounts_invariant(pieces: Seq<Seq<char>>)
    ensures
        match spec_parse_mounts(pieces) {
            Ok(ms) => forall|i: int|
                0 <= i < ms.len() ==> (#[trigger] ms[i]).tag.len() > 0 && ms[i].path.len() > 0,
            Err(_) => true,
        },
    decreases pieces.len(),
{
    if pieces.len() > 0 {
        lemma_parsed_mounts_invariant(pieces.drop_last());
    }
}

/// Inserting a binding only introduces the inserted name: every name in the
/// result is the inserted one or a name the mapping already had.
proof fn lemma_env_insert_names(es: Seq<(Seq<char>, Seq<char>)>, k: Seq<char>, v: Seq<char>)
    ensures
        forall|j: int|
            0 <= j < env_insert(es, k, v).len() ==> (#[trigger] env_insert(es, k, v)[j].0) == k
                || exists|i: int| 0 <= i < es.len() && es[i].0 == env_insert(es, k, v)[j].0,
    decreases es.len(),
{
    let r = env_insert(es, k, v);
    if es.len() == 0 {
    } else if es[0].0 == k {
        assert forall|j: int|
            0 <= j < r.len() implies (#[trigger] r[j].0) == k || exists|i: int|
            0 <= i < es.len() && es[i].0 == r[j].0 by {
            if j > 0 {
                assert(r[j] == es.drop_first()[j - 1]);
                assert(es[j].0 == r[j].0);
            }
        }
    } else {
        lemma_env_insert_names(es.drop_first(), k, v);
        let r2 = env_insert(es.drop_first(), k, v);
        assert forall|j: int|
            0 <= j < r.len() implies (#[trigger] r[j].0) == k || exists|i: int|
            0 <= i < es.len() && es[i].0 == r[j].0 by {
            if j == 0 {
                assert(r[0] == es[0]);
                assert(es[0].0 == r[0].0);
            } else {
                assert(r[j] == r2[j - 1]);
                if r2[j - 1].0 != k {
                    let i0 = choose|i0: int|
                        0 <= i0 < es.drop_first().len() && es.drop_first()[i0].0 == r2[j - 1].0;
                    assert(es.drop_first()[i0] == es[i0 + 1]);
                    assert(es[i0 + 1].0 == r[j].0);
                }
            }
        }
    }
}

/// Inserting into a mapping with unique names yields a mapping with unique
/// names: the replaced-in-place binding keeps its position, and an appended
/// binding carries a name the mapping did not have.
pub proof fn lemma_env_insert_keeps_names_unique(
    es: Seq<(Seq<char>, Seq<char>)>,
    k: Seq<char>,
    v: Seq<char>,
)
    requires
        env_entries_unique(es),
    ensures
        env_entries_unique(env_insert(es, k, v)),
    decreases es.len(),
{
    let r = env_insert(es, k, v);
    if es.len() == 0 {
    } else if es[0].0 == k {
        assert forall|i: int, j: int| 0 <= i < j < r.len() implies r[i].0 != r[j].0 by {
            if i == 0 {
                assert(r[j] == es.drop_first()[j - 1]);
                assert(r[j] == es[j]);
                assert(es[0].0 != es[j].0);
            } else {
                assert(r[i] == es[i]);
                assert(r[j] == es[j]);
            }
        }
    } else {
        let rest0 = es.drop_first();
        assert forall|i: int, j: int| 0 <= i < j < rest0.len() implies rest0[i].0 != rest0[j].0 by {
            assert(rest0[i] == es[i + 1]);
            assert(rest0[j] == es[j + 1]);
        }
        lemma_env_insert_keeps_names_unique(es.drop_first(), k, v);
        lemma_env_insert_names(es.drop_first(), k, v);
        let r2 = env_insert(es.drop_first(), k, v);
        assert forall|i: int, j: int| 0 <= i < j < r.len() implies r[i].0 != r[j].0 by {
            if i == 0 {
                assert(r[0] == es[0]);
                assert(r[j] == r2[j - 1]);
                if r2[j - 1].0 == k {
                    assert(es[0].0 != k);
                } else {
                    let i0 = choose|i0: int|
                        0 <= i0 < es.drop_first().len() && es.drop_first()[i0].0 == r2[j - 1].0;
                    assert(es.drop_first()[i0] == es[i0 + 1]);
                    assert(es[0].0 != es[i0 + 1].0);
                }
            } else {
                assert(r[i] == r2[i - 1]);
                assert(r[j] == r2[j - 1]);
            }
        }
    }
}

/// Every parser state the token fold can reach keeps the data-model
/// invariants: each accepted mount has a non-empty tag and path, and the
/// environment mapping's names are unique.
pub proof fn lemma_apply_params_invariants(ps: Seq<Seq<char>>)
    ensures
        match apply_params(ps) {
            Ok(acc) => (forall|i: int|
                0 <= i < acc.virtiofs_mounts.len() ==> (#[trigger] acc.virtiofs_mounts[i]).tag.len()
                    > 0 && acc.virtiofs_mounts[i].path.len() > 0) && env_entries_unique(
                acc.env_vars,
            ),
            Err(_) => true,
        },
    decreases ps.len(),
{
    if ps.len() > 0 {
        lemma_apply_params_invariants(ps.drop_last());
        match apply_params(ps.drop_last()) {
            Err(_) => {},
            Ok(acc0) => {
                let p = ps.last();
                if has_prefix(p, "init.virtiofs="@) {
                    lemma_parsed_mounts_invariant(
                        split_on(p.skip("init.virtiofs="@.len() as int), ','),
                    );
                }
                if has_prefix(p, "init.env."@) {
                    let rest = p.skip("init.env."@.len() as int);
                    match find_in(rest, '=') {
                        None => {},
                        Some(j) => {
                            lemma_env_insert_keeps_names_unique(
                                acc0.env_vars,
                                rest.take(j),
                                rest.skip(j + 1),
                            );
                        },
                    }
                }
            },
        }
    }
}

/// Every configuration the parser returns satisfies the data-model
/// invariants: each declared mount has a non-empty tag and path, and the
/// environment mapping binds each name once.
pub proof fn lemma_parsed_config_invariants(s: Seq<char>)
    ensures
        match spec_parse(s) {
            Ok(c) => (forall|i: int|
                0 <= i < c.virtiofs_mounts.len() ==> (#[trigger] c.virtiofs_mounts[i]).tag.len()
                    > 0 && c.virtiofs_mounts[i].path.len() > 0) && env_entries_unique(c.env_vars),
            Err(_) => true,
        },
{
    lemma_apply_params_invariants(tokenize(s));
}

} // verus!

// part 2
