//! Rendering a family's decision as text: comment lines tracing the digests,
//! then `rm` and `mv` lines.

use vstd::prelude::*;
use crate::classify::ClassifiedMember;
use crate::retention::{stamps_of, RetentionDecision};

verus! {

/// `# ------------------------------ <original> <digest>`
pub open spec fn header_line(original: Seq<char>, digest: Seq<char>) -> Seq<char> {
    "# ------------------------------ "@ + original + " "@ + digest
}

/// `# <path> <digest>`
pub open spec fn trace_line(path: Seq<char>, digest: Seq<char>) -> Seq<char> {
    "# "@ + path + " "@ + digest
}

/// `rm "<path>" # <original>`: an exact duplicate of `original` goes.
pub open spec fn duplicate_removal_line(path: Seq<char>, original: Seq<char>) -> Seq<char> {
    "rm \""@ + path + "\" # "@ + original
}

/// `rm "<path>"`
pub open spec fn removal_line(path: Seq<char>) -> Seq<char> {
    "rm \""@ + path + "\""@
}

/// `mv "<from>" "<to>"`
pub open spec fn rename_line(from: Seq<char>, to: Seq<char>) -> Seq<char> {
    "mv \""@ + from + "\" \""@ + to + "\""@
}

/// The lines for one member: its trace, and its removal if it is exact.
pub open spec fn lines_for(original: Seq<char>, m: ClassifiedMember) -> Seq<Seq<char>> {
    if m.exact {
        seq![trace_line(m.path@, m.digest@), duplicate_removal_line(m.path@, original)]
    } else {
        seq![trace_line(m.path@, m.digest@)]
    }
}

/// The lines for the members, in family order.
pub open spec fn member_lines(original: Seq<char>, c: Seq<ClassifiedMember>) -> Seq<Seq<char>>
    decreases c.len(),
{
    if c.len() == 0 {
        seq![]
    } else {
        member_lines(original, c.drop_last()) + lines_for(original, c.last())
    }
}

/// The closing lines: where the original is replaced, its removal, the
/// removal of each superseded copy (newest first), and the rename.
pub open spec fn closing_lines(original: Seq<char>, d: RetentionDecision) -> Seq<Seq<char>> {
    match d {
        RetentionDecision::ReplaceOriginal { survivor, superseded, .. } => seq![
            removal_line(original),
        ] + stamps_of(superseded@).map_values(|s: (int, Seq<char>)| removal_line(s.1)) + seq![
            rename_line(survivor.path@, original),
        ],
        _ => seq![],
    }
}

/// The plan's lines for one family; none for an empty family.
pub open spec fn plan_lines(
    original: Seq<char>,
    digest: Seq<char>,
    c: Seq<ClassifiedMember>,
    d: RetentionDecision,
) -> Seq<Seq<char>> {
    if c.len() == 0 {
        seq![]
    } else {
        seq![header_line(original, digest)] + member_lines(original, c) + closing_lines(original, d)
    }
}

/// Lines joined by single newlines.
pub open spec fn join_lines(lines: Seq<Seq<char>>) -> Seq<char>
    decreases lines.len(),
{
    if lines.len() == 0 {
        seq![]
    } else if lines.len() == 1 {
        lines[0]
    } else {
        join_lines(lines.drop_last()) + "\n"@ + lines.last()
    }
}

/// Appends a newline and `line` to a non-empty run of lines.
pub(crate) fn add_line(out: &mut String, lines: Ghost<Seq<Seq<char>>>, line: String)
    requires
        lines@.len() > 0,
        old(out)@ == join_lines(lines@),
    ensures
        final(out)@ == join_lines(lines@.push(line@)),
{
    out.append("\n");
    out.append(line.as_str());
    assert(lines@.push(line@).drop_last() =~= lines@);
}

fn header_text(original: &String, digest: &String) -> (r: String)
    ensures
        r@ == header_line(original@, digest@),
{
    let mut r = String::from_str("# ------------------------------ ");
    r.append(original.as_str());
    r.append(" ");
    r.append(digest.as_str());
    r
}

fn trace_text(path: &String, digest: &String) -> (r: String)
    ensures
        r@ == trace_line(path@, digest@),
{
    let mut r = String::from_str("# ");
    r.append(path.as_str());
    r.append(" ");
    r.append(digest.as_str());
    r
}

fn duplicate_removal_text(path: &String, original: &String) -> (r: String)
    ensures
        r@ == duplicate_removal_line(path@, original@),
{
    let mut r = String::from_str("rm \"");
    r.append(path.as_str());
    r.append("\" # ");
    r.append(original.as_str());
    r
}

fn removal_text(path: &String) -> (r: String)
    ensures
        r@ == removal_line(path@),
{
    let mut r = String::from_str("rm \"");
    r.append(path.as_str());
    r.append("\"");
    r
}

fn rename_text(from: &String, to: &String) -> (r: String)
    ensures
        r@ == rename_line(from@, to@),
{
    let mut r = String::from_str("mv \"");
    r.append(from.as_str());
    r.append("\" \"");
    r.append(to.as_str());
    r.append("\"");
    r
}

/// Renders the plan for one family: empty for an empty family; otherwise a
/// header with the original's digest, a trace line per member (followed by
/// its removal when it is an exact duplicate) and, where the original is
/// replaced, the closing `rm` lines and the `mv` line, joined by newlines.
pub fn render(
    original: &String,
    original_digest: &String,
    classified: &Vec<ClassifiedMember>,
    decision: &RetentionDecision,
) -> (r: String)
    ensures
        r@ == join_lines(plan_lines(original@, original_digest@, classified@, *decision)),
{
    if classified.len() == 0 {
        return String::new();
    }
    let mut out = header_text(original, original_digest);
    let ghost mut lines = seq![header_line(original@, original_digest@)];
    for i in 0..classified.len()
        invariant
            lines.len() > 0,
            out@ == join_lines(lines),
            lines == seq![header_line(original@, original_digest@)] + member_lines(
                original@,
                classified@.subrange(0, i as int),
            ),
    {
        let m = &classified[i];
        assert(classified@.subrange(0, i + 1).drop_last() =~= classified@.subrange(0, i as int));
        let ghost before = lines;
        add_line(&mut out, Ghost(lines), trace_text(&m.path, &m.digest));
        proof {
            lines = lines.push(trace_line(m.path@, m.digest@));
        }
        if m.exact {
            add_line(&mut out, Ghost(lines), duplicate_removal_text(&m.path, original));
            proof {
                lines = lines.push(duplicate_removal_line(m.path@, original@));
            }
        }
        assert(lines =~= before + lines_for(original@, *m));
    }
    assert(classified@.subrange(0, classified.len() as int) =~= classified@);
    match decision {
        RetentionDecision::ReplaceOriginal { survivor, superseded, .. } => {
            let ghost body = lines;
            add_line(&mut out, Ghost(lines), removal_text(original));
            proof {
                lines = lines.push(removal_line(original@));
            }
            for k in 0..superseded.len()
                invariant
                    lines.len() > 0,
                    out@ == join_lines(lines),
                    lines == body + seq![removal_line(original@)] + stamps_of(
                        superseded@.subrange(0, k as int),
                    ).map_values(|s: (int, Seq<char>)| removal_line(s.1)),
            {
                let ghost before = lines;
                add_line(&mut out, Ghost(lines), removal_text(&superseded[k].path));
                proof {
                    lines = lines.push(removal_line(superseded@[k as int].path@));
                }
                assert(lines =~= body + seq![removal_line(original@)] + stamps_of(
                    superseded@.subrange(0, k + 1),
                ).map_values(|s: (int, Seq<char>)| removal_line(s.1)));
            }
            assert(superseded@.subrange(0, superseded.len() as int) =~= superseded@);
            add_line(&mut out, Ghost(lines), rename_text(&survivor.path, original));
            proof {
                lines = lines.push(rename_line(survivor.path@, original@));
            }
            assert(lines =~= plan_lines(original@, original_digest@, classified@, *decision));
        },
        _ => {
            assert(lines =~= plan_lines(original@, original_digest@, classified@, *decision));
        },
    }
    out
}

} // verus!
