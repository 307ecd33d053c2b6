//! The computations around a whole run: checking the extension, the scan
//! pattern, the degree of parallelism, and joining the families' plans.

use vstd::prelude::*;
use vstd::math::{max, min};
use crate::classify::texts_of;
use crate::plan::{add_line, join_lines};
use crate::text::chars_of;

verus! {

/// Whether `ext` starts with a dot, as an extension such as `.pdf` does.
pub fn has_leading_dot(ext: &String) -> (r: bool)
    ensures
        r == (ext@.len() > 0 && ext@[0] == '.'),
{
    let chars = chars_of(ext.as_str());
    chars.len() > 0 && chars[0] == '.'
}

/// The file-name pattern of the files with extension `ext`: `*<ext>`.
pub fn scan_pattern(ext: &String) -> (r: String)
    ensures
        r@ == "*"@ + ext@,
{
    let mut r = String::from_str("*");
    r.append(ext.as_str());
    r
}

/// The path pattern for `pattern` inside `dir`: `<dir>/<pattern>`.
pub fn glob_pattern(dir: &String, pattern: &String) -> (r: String)
    ensures
        r@ == dir@ + "/"@ + pattern@,
{
    let mut r = dir.clone();
    r.append("/");
    r.append(pattern.as_str());
    r
}

/// The number of workers: one per ten files, at least one, at most `cpus`.
pub fn worker_count(cpus: usize, files: usize) -> (r: usize)
    ensures
        r == min(cpus as int, max(1, (files / 10) as int)),
{
    let wanted: usize = if files / 10 > 1 {
        files / 10
    } else {
        1
    };
    if cpus < wanted {
        cpus
    } else {
        wanted
    }
}

/// The least number of files a worker takes at once: the files shared evenly
/// among the workers (counting no workers as one), and at least one.
pub fn chunk_size(files: usize, workers: usize) -> (r: usize)
    ensures
        r == max(1, files as int / max(workers as int, 1)),
{
    let w: usize = if workers > 1 {
        workers
    } else {
        1
    };
    let per = files / w;
    if per > 1 {
        per
    } else {
        1
    }
}

/// The texts of `parts` that are not empty, in order.
pub open spec fn non_empty(parts: Seq<Seq<char>>) -> Seq<Seq<char>>
    decreases parts.len(),
{
    if parts.len() == 0 {
        seq![]
    } else if parts.last().len() > 0 {
        non_empty(parts.drop_last()).push(parts.last())
    } else {
        non_empty(parts.drop_last())
    }
}

/// The families' plans, the empty ones dropped, joined by newlines.
pub fn collapse_strings(result: &Vec<String>) -> (r: String)
    ensures
        r@ == join_lines(non_empty(texts_of(result@))),
{
    let ghost parts = texts_of(result@);
    let mut out = String::new();
    let ghost mut kept: Seq<Seq<char>> = seq![];
    let mut any = false;
    for i in 0..result.len()
        invariant
            parts == texts_of(result@),
            any == (kept.len() > 0),
            kept == non_empty(parts.subrange(0, i as int)),
            out@ == join_lines(kept),
    {
        assert(parts.subrange(0, i + 1).drop_last() =~= parts.subrange(0, i as int));
        assert(parts.subrange(0, i + 1).last() == result@[i as int]@);
        let part = &result[i];
        if !part.as_str().is_empty() {
            if any {
                add_line(&mut out, Ghost(kept), part.clone());
            } else {
                out = part.clone();
            }
            any = true;
            proof {
                kept = kept.push(part@);
            }
        }
    }
    assert(parts.subrange(0, result.len() as int) =~= parts);
    out
}

} // verus!
