use vstd::prelude::*;

verus! {

#[verifier::external_type_specification]
#[verifier::external_body]
pub struct ExRegex(regex::Regex);

#[verifier::external_type_specification]
#[verifier::external_body]
pub struct ExRegexError(regex::Error);

/// Whether `regex::Regex::new` accepts the expression (syntax and size limit).
pub uninterp spec fn regex_compiles(expr: Seq<char>) -> bool;

/// Whether the regex compiled from `expr` matches somewhere in `text`.
pub uninterp spec fn regex_matches(expr: Seq<char>, text: Seq<char>) -> bool;

/// Relies on `regex::Regex::new`: it succeeds or fails on the text of the
/// expression alone, with the default builder settings.
#[verifier::external_body]
fn compile_regex(expr: &str) -> (r: Result<regex::Regex, regex::Error>)
    ensures
        r is Ok <==> regex_compiles(expr@),
{
    regex::Regex::new(expr)
}

/// Relies on `regex::Regex::is_match`: an unanchored search whose answer depends
/// on the compiled expression and the haystack alone. `p.regex` was compiled from
/// `p.expr` (only `Pattern::compile` builds a `Pattern`).
#[verifier::external_body]
fn pattern_is_match(p: &Pattern, text: &str) -> (r: bool)
    ensures
        r == regex_matches(p@, text@),
{
    p.regex.is_match(text)
}

/// A compiled regular expression together with its source text.
pub struct Pattern {
    expr: String,
    regex: regex::Regex,
}

impl View for Pattern {
    type V = Seq<char>;

    closed spec fn view(&self) -> Seq<char> {
        self.expr@
    }
}

/// An expression that did not compile, with its position in the list.
pub struct PatternError {
    pub index: usize,
    pub cause: regex::Error,
}

impl Pattern {
    /// Compiles `expr`; fails exactly where the regex engine refuses it.
    pub fn compile(expr: &String) -> (r: Result<Pattern, regex::Error>)
        ensures
            r is Ok <==> regex_compiles(expr@),
            r matches Ok(p) ==> p@ == expr@,
    {
        match compile_regex(expr.as_str()) {
            Ok(regex) => Ok(Pattern { expr: expr.clone(), regex }),
            Err(e) => Err(e),
        }
    }

    /// The source text of the expression.
    pub fn as_str(&self) -> (r: &str)
        ensures
            r@ == self@,
    {
        self.expr.as_str()
    }

    /// Whether the expression matches somewhere in `text`.
    pub fn is_match(&self, text: &str) -> (r: bool)
        ensures
            r == regex_matches(self@, text@),
    {
        pattern_is_match(self, text)
    }
}

/// Compiles every expression, keeping their order; all or nothing.
pub fn parse_regex(expressions: &Vec<String>) -> (r: Result<Vec<Pattern>, PatternError>)
    ensures
        r is Ok <==> forall|i: int| 0 <= i < expressions.len() ==> regex_compiles(expressions[i]@),
        r matches Ok(ps) ==> ps.len() == expressions.len() && forall|i: int|
            0 <= i < ps.len() ==> (#[trigger] ps[i])@ == expressions[i]@,
        r matches Err(e) ==> e.index < expressions.len() && !regex_compiles(
            expressions[e.index as int]@,
        ) && forall|j: int| 0 <= j < e.index ==> regex_compiles(expressions[j]@),
{
    let mut parsed: Vec<Pattern> = Vec::new();
    let mut i: usize = 0;
    while i < expressions.len()
        invariant
            i <= expressions.len(),
            parsed.len() == i,
            forall|j: int| 0 <= j < i ==> regex_compiles(expressions[j]@),
            forall|j: int| 0 <= j < i ==> (#[trigger] parsed[j])@ == expressions[j]@,
        decreases expressions.len() - i,
    {
        match Pattern::compile(&expressions[i]) {
            Ok(p) => parsed.push(p),
            Err(cause) => {
                return Err(PatternError { index: i, cause });
            },
        }
        i += 1;
    }
    Ok(parsed)
}

} // verus!
