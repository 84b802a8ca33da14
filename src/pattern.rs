use vstd::prelude::*;

verus! {

/// Whether `glob::Pattern::new` accepts the pattern text.
pub uninterp spec fn glob_valid(pattern: Seq<char>) -> bool;

/// Whether the glob compiled from `pattern` matches `text`.
pub uninterp spec fn glob_match(pattern: Seq<char>, text: Seq<char>) -> bool;

/// Whether `regex::Regex::new` accepts the expression text.
pub uninterp spec fn regex_valid(expr: Seq<char>) -> bool;

/// Whether the regular expression compiled from `expr` finds a match in `text`.
pub uninterp spec fn regex_match(expr: Seq<char>, text: Seq<char>) -> bool;

#[verifier::external_type_specification]
#[verifier::external_body]
pub struct ExGlobPattern(glob::Pattern);

#[verifier::external_type_specification]
#[verifier::external_body]
pub struct ExGlobPatternError(glob::PatternError);

#[verifier::external_type_specification]
#[verifier::external_body]
pub struct ExRegex(regex::Regex);

#[verifier::external_type_specification]
#[verifier::external_body]
pub struct ExRegexError(regex::Error);

/// A compiled glob, kept together with the text it was compiled from.
///
/// Only `compile_glob` makes values of this type, so `compiled` is always
/// the result of compiling `text`.
pub struct Glob {
    text: String,
    compiled: glob::Pattern,
}

/// A compiled regular expression, kept together with its source text.
///
/// Only `compile_regex` makes values of this type, so `compiled` is always
/// the result of compiling `text`.
pub struct Rx {
    text: String,
    compiled: regex::Regex,
}

impl View for Glob {
    type V = Seq<char>;

    closed spec fn view(&self) -> Seq<char> {
        self.text@
    }
}

impl View for Rx {
    type V = Seq<char>;

    closed spec fn view(&self) -> Seq<char> {
        self.text@
    }
}

/// The error of building an explorer: a pattern that does not compile.
#[derive(Debug)]
pub enum ExplorerBuilderError {
    /// `pattern` is the first malformed pattern; `message` is the compiler's
    /// description of what is wrong with it.
    ValidationError { pattern: String, message: String },
}

/// Relies on `glob::Pattern::new`: it fails exactly on malformed patterns.
#[verifier::external_body]
fn compile_glob(text: &String) -> (r: Result<Glob, glob::PatternError>)
    ensures
        r is Ok <==> glob_valid(text@),
        r matches Ok(g) ==> g@ == text@,
{
    match glob::Pattern::new(text) {
        Ok(compiled) => Ok(Glob { text: text.clone(), compiled }),
        Err(e) => Err(e),
    }
}

/// Relies on `glob::Pattern::matches` with the default match options.
#[verifier::external_body]
fn glob_matches(g: &Glob, text: &str) -> (r: bool)
    ensures
        r == glob_match(g@, text@),
{
    g.compiled.matches(text)
}

/// Relies on `glob::PatternError`'s `Display`, for the error message, which
/// always starts with a fixed text.
#[verifier::external_body]
fn glob_error_message(e: &glob::PatternError) -> (r: String)
    ensures
        r@.len() > 0,
{
    e.to_string()
}

/// Relies on `regex::Regex::new`: it fails exactly on malformed expressions.
#[verifier::external_body]
fn compile_regex(text: &String) -> (r: Result<Rx, regex::Error>)
    ensures
        r is Ok <==> regex_valid(text@),
        r matches Ok(x) ==> x@ == text@,
{
    match regex::Regex::new(text) {
        Ok(compiled) => Ok(Rx { text: text.clone(), compiled }),
        Err(e) => Err(e),
    }
}

/// Relies on `regex::Regex::is_match`: whether a match occurs anywhere in `text`.
#[verifier::external_body]
fn regex_matches(x: &Rx, text: &str) -> (r: bool)
    ensures
        r == regex_match(x@, text@),
{
    x.compiled.is_match(text)
}

/// Relies on `regex::Error`'s `Display`, for the error message, which is
/// never empty.
#[verifier::external_body]
fn regex_error_message(e: &regex::Error) -> (r: String)
    ensures
        r@.len() > 0,
{
    e.to_string()
}

/// Whether some glob of `globs` matches `text`.
pub open spec fn any_glob_matches(globs: Seq<Glob>, text: Seq<char>) -> bool {
    exists|i: int| 0 <= i < globs.len() && glob_match(#[trigger] globs[i]@, text)
}

/// Whether some expression of `exprs` matches `text`.
pub open spec fn any_regex_matches(exprs: Seq<Rx>, text: Seq<char>) -> bool {
    exists|i: int| 0 <= i < exprs.len() && regex_match(#[trigger] exprs[i]@, text)
}

/// Whether every text is a well-formed glob.
pub open spec fn all_globs_valid(texts: Seq<String>) -> bool {
    forall|i: int| 0 <= i < texts.len() ==> glob_valid(#[trigger] texts[i]@)
}

/// Whether every text is a well-formed regular expression.
pub open spec fn all_regexes_valid(texts: Seq<String>) -> bool {
    forall|i: int| 0 <= i < texts.len() ==> regex_valid(#[trigger] texts[i]@)
}

/// `r` holds the compiled form of each text, in order.
pub open spec fn compiled_globs(r: Seq<Glob>, texts: Seq<String>) -> bool {
    r.len() == texts.len() && forall|i: int| 0 <= i < r.len() ==> #[trigger] r[i]@ == texts[i]@
}

/// `r` holds the compiled form of each text, in order.
pub open spec fn compiled_regexes(r: Seq<Rx>, texts: Seq<String>) -> bool {
    r.len() == texts.len() && forall|i: int| 0 <= i < r.len() ==> #[trigger] r[i]@ == texts[i]@
}

/// The pattern that `e` names.
pub open spec fn rejected_text(e: ExplorerBuilderError) -> Seq<char> {
    match e {
        ExplorerBuilderError::ValidationError { pattern, .. } => pattern@,
    }
}

/// The compiler's description of what is wrong, that `e` carries.
pub open spec fn rejection_message(e: ExplorerBuilderError) -> Seq<char> {
    match e {
        ExplorerBuilderError::ValidationError { message, .. } => message@,
    }
}

/// `e` names the first text of `texts` that is not a well-formed glob, and
/// carries a description of the error.
pub open spec fn first_bad_glob(e: ExplorerBuilderError, texts: Seq<String>) -> bool {
    exists|i: int|
        0 <= i < texts.len() && !glob_valid(#[trigger] texts[i]@) && rejected_text(e) == texts[i]@
            && rejection_message(e).len() > 0 && all_globs_valid(texts.subrange(0, i))
}

/// `e` names the first text of `texts` that is not a well-formed regular
/// expression, and carries a description of the error.
pub open spec fn first_bad_regex(e: ExplorerBuilderError, texts: Seq<String>) -> bool {
    exists|i: int|
        0 <= i < texts.len() && !regex_valid(#[trigger] texts[i]@) && rejected_text(e) == texts[i]@
            && rejection_message(e).len() > 0 && all_regexes_valid(texts.subrange(0, i))
}

/// Whether `text` passes the glob list: an empty list lets everything through.
pub fn path_matches_include(patterns: &Vec<Glob>, text: &str) -> (r: bool)
    ensures
        r == (patterns@.len() == 0 || any_glob_matches(patterns@, text@)),
{
    if patterns.len() == 0 {
        return true;
    }
    let mut i: usize = 0;
    while i < patterns.len()
        invariant
            0 <= i <= patterns@.len(),
            forall|j: int| 0 <= j < i ==> !glob_match(#[trigger] patterns@[j]@, text@),
        decreases patterns@.len() - i,
    {
        if glob_matches(&patterns[i], text) {
            return true;
        }
        i = i + 1;
    }
    false
}

/// Whether `text` passes the expression list: an empty list lets everything through.
pub fn path_matches_include_regex(patterns: &Vec<Rx>, text: &str) -> (r: bool)
    ensures
        r == (patterns@.len() == 0 || any_regex_matches(patterns@, text@)),
{
    if patterns.len() == 0 {
        return true;
    }
    let mut i: usize = 0;
    while i < patterns.len()
        invariant
            0 <= i <= patterns@.len(),
            forall|j: int| 0 <= j < i ==> !regex_match(#[trigger] patterns@[j]@, text@),
        decreases patterns@.len() - i,
    {
        if regex_matches(&patterns[i], text) {
            return true;
        }
        i = i + 1;
    }
    false
}

/// Compiles each glob text in order, failing on the first malformed one.
pub fn parse_include(patterns: Vec<String>) -> (r: Result<Vec<Glob>, ExplorerBuilderError>)
    ensures
        r is Ok <==> all_globs_valid(patterns@),
        r matches Ok(v) ==> compiled_globs(v@, patterns@),
        r matches Err(e) ==> first_bad_glob(e, patterns@),
{
    let mut out: Vec<Glob> = Vec::new();
    let mut i: usize = 0;
    while i < patterns.len()
        invariant
            0 <= i <= patterns@.len(),
            compiled_globs(out@, patterns@.subrange(0, i as int)),
            forall|j: int| 0 <= j < i ==> glob_valid(#[trigger] patterns@[j]@),
        decreases patterns@.len() - i,
    {
        match compile_glob(&patterns[i]) {
            Ok(g) => {
                out.push(g);
            },
            Err(e) => {
                let message = glob_error_message(&e);
                let err = ExplorerBuilderError::ValidationError {
                    pattern: patterns[i].clone(),
                    message,
                };
                assert(all_globs_valid(patterns@.subrange(0, i as int)));
                assert(first_bad_glob(err, patterns@));
                return Err(err);
            },
        }
        i = i + 1;
    }
    assert(patterns@.subrange(0, patterns@.len() as int) =~= patterns@);
    Ok(out)
}

/// Compiles each expression text in order, failing on the first malformed one.
pub fn parse_include_regex(patterns: Vec<String>) -> (r: Result<Vec<Rx>, ExplorerBuilderError>)
    ensures
        r is Ok <==> all_regexes_valid(patterns@),
        r matches Ok(v) ==> compiled_regexes(v@, patterns@),
        r matches Err(e) ==> first_bad_regex(e, patterns@),
{
    let mut out: Vec<Rx> = Vec::new();
    let mut i: usize = 0;
    while i < patterns.len()
        invariant
            0 <= i <= patterns@.len(),
            compiled_regexes(out@, patterns@.subrange(0, i as int)),
            forall|j: int| 0 <= j < i ==> regex_valid(#[trigger] patterns@[j]@),
        decreases patterns@.len() - i,
    {
        match compile_regex(&patterns[i]) {
            Ok(x) => {
                out.push(x);
            },
            Err(e) => {
                let message = regex_error_message(&e);
                let err = ExplorerBuilderError::ValidationError {
                    pattern: patterns[i].clone(),
                    message,
                };
                assert(all_regexes_valid(patterns@.subrange(0, i as int)));
                assert(first_bad_regex(err, patterns@));
                return Err(err);
            },
        }
        i = i + 1;
    }
    assert(patterns@.subrange(0, patterns@.len() as int) =~= patterns@);
    Ok(out)
}

} // verus!
