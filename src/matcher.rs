//! Finding an original's family: the candidates whose path text contains
//! `<stem> (<digits>)<ext>`, as a regular expression built from the
//! original's stem.
//!
//! The search is not anchored: the pattern may occur anywhere in a
//! candidate's path. The extension is matched literally; in the stem only
//! parentheses are escaped, and its other characters keep their meaning in
//! the pattern syntax. The original itself is never a member of its family.

use vstd::prelude::*;
use crate::classify::texts_of;
use crate::error::PlanError;
use crate::text::chars_of;

verus! {

/// The stem of a path: its file name without the final extension, or none
/// where the path has no file name (as `std::path::Path::file_stem` gives it).
pub uninterp spec fn file_stem_of(path: Seq<char>) -> Option<Seq<char>>;

/// Whether the `regex` crate compiles `pattern`.
pub uninterp spec fn regex_accepts(pattern: Seq<char>) -> bool;

/// Whether the regex compiled from `pattern` matches somewhere in `haystack`.
pub uninterp spec fn regex_finds(pattern: Seq<char>, haystack: Seq<char>) -> bool;

#[verifier::external_type_specification]
#[verifier::external_body]
pub struct ExRegex(regex::Regex);

/// Relies on `std::path::Path::file_stem`. The stem of a path given as `str`
/// is valid UTF-8, so `to_string_lossy` hands it over unchanged.
#[verifier::external_body]
fn path_stem(path: &str) -> (r: Option<String>)
    ensures
        file_stem_of(path@) == match r {
            Some(s) => Some(s@),
            None => None::<Seq<char>>,
        },
{
    std::path::Path::new(path).file_stem().map(|s| s.to_string_lossy().into_owned())
}

/// A compiled family pattern together with its source text.
///
/// The only constructor is `compile`, so `re` is always the regex compiled
/// from `pattern`.
struct CopyMatcher {
    pattern: String,
    re: regex::Regex,
}

impl CopyMatcher {
    /// The source text of the pattern.
    spec fn source(&self) -> Seq<char> {
        self.pattern@
    }

    /// Relies on `regex::Regex::new`: it returns `Ok` exactly when the
    /// pattern compiles; the error is kept as its message.
    #[verifier::external_body]
    fn compile(pattern: String) -> (r: Result<CopyMatcher, String>)
        ensures
            r is Ok <==> regex_accepts(pattern@),
            r matches Ok(m) ==> m.source() == pattern@,
    {
        match regex::Regex::new(&pattern) {
            Ok(re) => Ok(CopyMatcher { pattern, re }),
            Err(e) => Err(e.to_string()),
        }
    }

    /// Relies on `regex::Regex::is_match`: whether the regex matches anywhere
    /// in `haystack`.
    #[verifier::external_body]
    fn finds(&self, haystack: &str) -> (r: bool)
        ensures
            r == regex_finds(self.source(), haystack@),
    {
        self.re.is_match(haystack)
    }
}

/// A character as the pattern syntax needs it: parentheses escaped.
pub open spec fn escape_char(c: char) -> Seq<char> {
    if c == '(' {
        seq!['\\', '(']
    } else if c == ')' {
        seq!['\\', ')']
    } else {
        seq![c]
    }
}

/// `s` with each parenthesis preceded by a backslash.
pub open spec fn escape_parens(s: Seq<char>) -> Seq<char>
    decreases s.len(),
{
    if s.len() == 0 {
        seq![]
    } else {
        escape_parens(s.drop_last()) + escape_char(s.last())
    }
}

/// Whether `c` has a meaning of its own in the pattern syntax.
pub open spec fn is_pattern_meta(c: char) -> bool {
    c == '\\' || c == '.' || c == '+' || c == '*' || c == '?' || c == '(' || c == ')' || c == '|'
        || c == '[' || c == ']' || c == '{' || c == '}' || c == '^' || c == '$'
}

/// `s` as a pattern that matches exactly `s`: each character with a meaning
/// of its own preceded by a backslash.
pub open spec fn escape_literal(s: Seq<char>) -> Seq<char>
    decreases s.len(),
{
    if s.len() == 0 {
        seq![]
    } else if is_pattern_meta(s.last()) {
        escape_literal(s.drop_last()) + seq!['\\', s.last()]
    } else {
        escape_literal(s.drop_last()).push(s.last())
    }
}

/// The family pattern of a stem and an extension: the escaped stem, a space,
/// one or more digits in parentheses, then the extension, literally.
pub open spec fn copy_pattern(stem: Seq<char>, ext: Seq<char>) -> Seq<char> {
    escape_parens(stem) + " \\(\\d+\\)"@ + escape_literal(ext)
}

/// The candidates other than `original` in which the pattern is found, in
/// candidate order.
pub open spec fn found_in(
    pattern: Seq<char>,
    original: Seq<char>,
    candidates: Seq<Seq<char>>,
) -> Seq<Seq<char>>
    decreases candidates.len(),
{
    if candidates.len() == 0 {
        seq![]
    } else if candidates.last() != original && regex_finds(pattern, candidates.last()) {
        found_in(pattern, original, candidates.drop_last()).push(candidates.last())
    } else {
        found_in(pattern, original, candidates.drop_last())
    }
}

/// `s` with each parenthesis escaped by a backslash.
pub fn escape_stem(s: &str) -> (r: String)
    ensures
        r@ == escape_parens(s@),
{
    let chars = chars_of(s);
    let mut r = String::new();
    let mut start: usize = 0;
    for i in 0..chars.len()
        invariant
            chars@ == s@,
            start <= i,
            r@ + s@.subrange(start as int, i as int) == escape_parens(s@.subrange(0, i as int)),
    {
        assert(s@.subrange(0, i + 1).drop_last() =~= s@.subrange(0, i as int));
        assert(s@.subrange(0, i + 1).last() == chars@[i as int]);
        if chars[i] == '(' || chars[i] == ')' {
            let run = s.substring_char(start, i);
            r.append(run);
            if chars[i] == '(' {
                r.append("\\(");
                proof {
                    reveal_strlit("\\(");
                }
            } else {
                r.append("\\)");
                proof {
                    reveal_strlit("\\)");
                }
            }
            start = i + 1;
            assert(s@.subrange(start as int, i + 1) =~= Seq::<char>::empty());
        } else {
            assert(s@.subrange(start as int, i + 1) =~= s@.subrange(start as int, i as int).push(
                chars@[i as int],
            ));
        }
        assert(r@ + s@.subrange(start as int, i + 1) =~= escape_parens(s@.subrange(0, i + 1)));
    }
    let rest = s.substring_char(start, chars.len());
    r.append(rest);
    assert(s@.subrange(0, chars.len() as int) =~= s@);
    r
}

/// `s` with each character that has a meaning of its own in the pattern
/// syntax escaped by a backslash.
pub fn escape_text(s: &str) -> (r: String)
    ensures
        r@ == escape_literal(s@),
{
    let chars = chars_of(s);
    let mut r = String::new();
    let mut start: usize = 0;
    for i in 0..chars.len()
        invariant
            chars@ == s@,
            start <= i,
            r@ + s@.subrange(start as int, i as int) == escape_literal(s@.subrange(0, i as int)),
    {
        assert(s@.subrange(0, i + 1).drop_last() =~= s@.subrange(0, i as int));
        assert(s@.subrange(0, i + 1).last() == chars@[i as int]);
        let c = chars[i];
        if c == '\\' || c == '.' || c == '+' || c == '*' || c == '?' || c == '(' || c == ')' || c
            == '|' || c == '[' || c == ']' || c == '{' || c == '}' || c == '^' || c == '$' {
            let run = s.substring_char(start, i);
            r.append(run);
            r.append("\\");
            proof {
                reveal_strlit("\\");
            }
            start = i;
            assert(s@.subrange(start as int, i + 1) =~= seq![c]);
        } else {
            assert(s@.subrange(start as int, i + 1) =~= s@.subrange(start as int, i as int).push(c));
        }
        assert(r@ + s@.subrange(start as int, i + 1) =~= escape_literal(s@.subrange(0, i + 1)));
    }
    let rest = s.substring_char(start, chars.len());
    r.append(rest);
    assert(s@.subrange(0, chars.len() as int) =~= s@);
    r
}

/// The family pattern of a stem and an extension.
pub fn copy_pattern_for(stem: &str, ext: &str) -> (r: String)
    ensures
        r@ == copy_pattern(stem@, ext@),
{
    let mut r = escape_stem(stem);
    r.append(" \\(\\d+\\)");
    let e = escape_text(ext);
    r.append(e.as_str());
    r
}

/// The family of `original`: the candidates other than the original, in
/// their order, in which the pattern built from the original's stem and
/// `ext` is found. Fails where
/// the original has no stem, or where its pattern does not compile.
pub fn family(original: &String, ext: &String, candidates: &Vec<String>) -> (r: Result<
    Vec<String>,
    PlanError,
>)
    ensures
        match file_stem_of(original@) {
            None => r matches Err(PlanError::InvalidPath { path }) && path@ == original@,
            Some(stem) => if regex_accepts(copy_pattern(stem, ext@)) {
                r matches Ok(v) && texts_of(v@) == found_in(
                    copy_pattern(stem, ext@),
                    original@,
                    texts_of(candidates@),
                )
            } else {
                r matches Err(PlanError::InvalidPattern { pattern, .. }) && pattern@ == copy_pattern(
                    stem,
                    ext@,
                )
            },
        },
{
    let stem = match path_stem(original.as_str()) {
        Some(s) => s,
        None => {
            return Err(PlanError::InvalidPath { path: original.clone() });
        },
    };
    let pattern = copy_pattern_for(stem.as_str(), ext.as_str());
    let matcher = match CopyMatcher::compile(pattern.clone()) {
        Ok(m) => m,
        Err(reason) => {
            return Err(PlanError::InvalidPattern { pattern, reason });
        },
    };
    let ghost cands = texts_of(candidates@);
    let mut members: Vec<String> = Vec::new();
    for i in 0..candidates.len()
        invariant
            matcher.source() == copy_pattern(stem@, ext@),
            cands == texts_of(candidates@),
            texts_of(members@) == found_in(
                matcher.source(),
                original@,
                cands.subrange(0, i as int),
            ),
    {
        assert(cands.subrange(0, i + 1).drop_last() =~= cands.subrange(0, i as int));
        assert(cands.subrange(0, i + 1).last() == candidates@[i as int]@);
        if candidates[i] != *original && matcher.finds(candidates[i].as_str()) {
            members.push(candidates[i].clone());
        }
        assert(texts_of(members@) =~= found_in(
            matcher.source(),
            original@,
            cands.subrange(0, i + 1),
        ));
    }
    assert(cands.subrange(0, candidates.len() as int) =~= cands);
    Ok(members)
}

} // verus!
