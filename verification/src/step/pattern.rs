//! Regular-expression patterns of step definitions.
//!
//! The regular-expression engine is the `regex` crate. What it finds is not
//! defined here: it is named by [`regex_captures`] and
//! [`regex_capture_names`], and everything this library states about matching
//! is stated over those two names.
//!
//! A step's text has to satisfy a pattern as a whole. The engine searches
//! for a match anywhere in a text, and of several ways to match it takes the
//! first, not the longest. So a pattern is compiled enclosed in a group that
//! captures nothing, between the anchors of the start and the end of the
//! text: see [`anchored`]. The numbers and names of the pattern's own groups
//! stay what they are.

use vstd::prelude::*;
use vstd::string::StringExecFns;

verus! {

/// Makes `regex::Regex` known as a type whose values are carried along and
/// never looked into.
#[verifier::external_type_specification]
#[verifier::external_body]
pub struct ExRegex(regex::Regex);

/// What a search of `text` with the regular expression `pattern` finds: `None`
/// where nothing in `text` matches, else the byte offsets of the leftmost
/// match's capture groups, group 0 being the match itself.
pub uninterp spec fn regex_captures(pattern: Seq<char>, text: Seq<char>) -> Option<
    Seq<Option<(usize, usize)>>,
>;

/// The names of the capture groups of the regular expression `pattern`, in
/// group order; a group without a name gives `None`.
pub uninterp spec fn regex_capture_names(pattern: Seq<char>) -> Seq<Option<Seq<char>>>;

/// Why a pattern's text was not accepted as a regular expression.
#[derive(Clone, Debug, PartialEq, Eq)]
pub enum PatternError {
    /// The text is no regular expression; the message says why.
    Syntax(String),
    /// The compiled expression would exceed this size limit, in bytes.
    TooBig(usize),
    /// Any other refusal.
    Other,
}

/// The text of a pattern enclosed between the anchors of the start and the
/// end of a text, in a group that captures nothing.
pub open spec fn anchored(source: Seq<char>) -> Seq<char> {
    "\\A(?:"@ + source + ")\\z"@
}

/// What is found is in the shape of a search with `pattern`: as many groups
/// as the pattern has names for, and among them group 0, which has offsets.
pub open spec fn in_shape_of(pattern: Seq<char>, found: Option<Seq<Option<(usize, usize)>>>) -> bool {
    found matches Some(spans) ==> {
        &&& spans.len() == regex_capture_names(pattern).len()
        &&& spans.len() >= 1
        &&& spans[0] is Some
    }
}

/// A regular expression together with the text it was made from. The only
/// way to make one is [`Pattern::new`], so the expression is always the
/// anchored text, compiled with the engine's default options.
#[derive(Debug)]
pub struct Pattern {
    source: String,
    regex: regex::Regex,
}

impl View for Pattern {
    type V = Seq<char>;

    closed spec fn view(&self) -> Seq<char> {
        self.source@
    }
}

/// The view of an optional group name.
pub open spec fn name_view(name: Option<String>) -> Option<Seq<char>> {
    match name {
        Some(n) => Some(n@),
        None => None,
    }
}

/// The views of a list of optional group names.
pub open spec fn names_view(names: Seq<Option<String>>) -> Seq<Option<Seq<char>>> {
    Seq::new(names.len(), |i: int| name_view(names[i]))
}

/// The view of what a search returned.
pub open spec fn found_view(found: Option<Vec<Option<(usize, usize)>>>) -> Option<
    Seq<Option<(usize, usize)>>,
> {
    match found {
        Some(spans) => Some(spans@),
        None => None,
    }
}

/// Calls `regex::Regex::new`, which compiles `source` with the default
/// options, and renders its error in this library's terms. Nothing is claimed
/// about which texts compile.
#[verifier::external_body]
fn compile(source: &str) -> (r: Result<regex::Regex, PatternError>) {
    match regex::Regex::new(source) {
        Ok(regex) => Ok(regex),
        Err(regex::Error::Syntax(message)) => Err(PatternError::Syntax(message)),
        Err(regex::Error::CompiledTooBig(limit)) => Err(PatternError::TooBig(limit)),
        Err(_) => Err(PatternError::Other),
    }
}

/// Calls `Clone::clone` of `regex::Regex`. Nothing is claimed of the copy
/// here; that it searches as the expression it was copied from is part of what
/// [`captures_read`] and [`capture_names`] claim of every [`Pattern`].
#[verifier::external_body]
fn clone_regex(regex: &regex::Regex) -> (r: regex::Regex) {
    regex.clone()
}

/// Calls `regex::Regex::captures_read` on fresh `capture_locations`, and
/// copies out the offsets of every group with `CaptureLocations::get`. The
/// claims: the outcome depends on the expression's text, which is the
/// pattern's anchored text, and on `text` alone, so that it is the value
/// named [`regex_captures`]; where something is found, there are as many
/// groups as `CaptureLocations::len` says, which is the number of the
/// expression's group names, and group 0 has the offsets of the match.
#[verifier::external_body]
pub(crate) fn captures_read(pattern: &Pattern, text: &str) -> (found: Option<Vec<Option<(usize, usize)>>>)
    ensures
        found_view(found) == regex_captures(anchored(pattern@), text@),
        in_shape_of(anchored(pattern@), found_view(found)),
{
    let mut locations = pattern.regex.capture_locations();
    let whole = pattern.regex.captures_read(&mut locations, text);
    whole.map(|_| (0..locations.len()).map(|group| locations.get(group)).collect())
}

/// Calls `regex::Regex::capture_names` and copies the names out. The
/// claims: they depend on the expression's text alone, which is the
/// pattern's anchored text, so that they are the value named
/// [`regex_capture_names`]; and the first is that of the group of the whole
/// match, which is always there and has no name.
#[verifier::external_body]
pub(crate) fn capture_names(pattern: &Pattern) -> (names: Vec<Option<String>>)
    ensures
        names_view(names@) == regex_capture_names(anchored(pattern@)),
        names@.len() >= 1,
        names@[0] is None,
{
    pattern.regex.capture_names().map(|name| name.map(str::to_owned)).collect()
}

/// The anchored text of `source`.
pub fn anchor(source: &str) -> (r: String)
    ensures
        r@ == anchored(source@),
{
    let mut text = "\\A(?:".to_owned();
    text.append(source);
    text.append(")\\z");
    text
}

impl Pattern {
    /// Makes the pattern of the text `source`. The text is compiled twice
    /// with the engine's default options: as it is, so that only a regular
    /// expression is taken, and anchored, which gives the expression that a
    /// step's text is held against. Whether a text compiles is for the
    /// engine to say; where both do, the pattern's view is `source`.
    ///
    /// # Errors
    ///
    /// The engine's refusal: of the text as it is, or else of the anchored
    /// text. The second happens to a regular expression whose last line is a
    /// comment of the engine's verbose mode, which takes the closing anchor
    /// in.
    pub fn new(source: &str) -> (r: Result<Pattern, PatternError>)
        ensures
            r matches Ok(p) ==> p@ == source@,
    {
        match compile(source) {
            Ok(_) => {
                let text = anchor(source);
                Pattern::with_compiled(source, compile(text.as_str()))
            },
            Err(e) => Err(e),
        }
    }

    /// The pattern for `source`, given what compiling the anchored text of
    /// `source` came to. It is not for callers outside: a pattern must hold
    /// the expression that was compiled from its own anchored text.
    fn with_compiled(source: &str, compiled: Result<regex::Regex, PatternError>) -> (r: Result<
        Pattern,
        PatternError,
    >)
        ensures
            match compiled {
                Ok(_) => r matches Ok(p) && p@ == source@,
                Err(e) => r == Err::<Pattern, PatternError>(e),
            },
    {
        match compiled {
            Ok(regex) => Ok(Pattern { source: source.to_owned(), regex }),
            Err(e) => Err(e),
        }
    }

    /// The text this pattern was made from.
    pub fn as_str(&self) -> (s: &str)
        ensures
            s@ == self@,
    {
        self.source.as_str()
    }

    /// Whether two patterns were made from the same text.
    pub fn same_text(&self, other: &Pattern) -> (r: bool)
        ensures
            r == (self@ == other@),
    {
        self.source == other.source
    }
}

impl Clone for Pattern {
    fn clone(&self) -> (r: Self)
        ensures
            r@ == self@,
    {
        Pattern { source: self.source.clone(), regex: clone_regex(&self.regex) }
    }
}

} // verus!
