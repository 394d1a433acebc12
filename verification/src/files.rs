//! Document handling: splitting a markdown document into front matter
//! and body, and the conflict check of the save path.

use vstd::prelude::*;

use crate::errors::{ErrFR, ErrFRActionCode};
use crate::records::FileReadMode;

verus! {

/// A document split into its front matter and its body.
#[derive(Debug)]
pub struct FileContent {
    pub front_matter: String,
    pub content: String,
}

/// A line with a trailing carriage return dropped, as a line reader
/// yields it.
pub open spec fn spec_strip_cr(l: Seq<char>) -> Seq<char> {
    if l.len() > 0 && l.last() == '\r' {
        l.drop_last()
    } else {
        l
    }
}

/// The lines of a text: split at each newline, trailing carriage
/// returns dropped, no phantom line after a final newline.
pub open spec fn spec_lines(s: Seq<char>) -> Seq<Seq<char>> {
    spec_lines_acc(s, Seq::empty())
}

/// The lines of the remaining text `s`, with `cur` the line read so far.
pub open spec fn spec_lines_acc(s: Seq<char>, cur: Seq<char>) -> Seq<Seq<char>>
    decreases s.len(),
{
    if s.len() == 0 {
        if cur.len() == 0 {
            Seq::empty()
        } else {
            seq![spec_strip_cr(cur)]
        }
    } else if s.first() == '\n' {
        seq![spec_strip_cr(cur)] + spec_lines_acc(s.drop_first(), Seq::empty())
    } else {
        spec_lines_acc(s.drop_first(), cur.push(s.first()))
    }
}

/// Whether a line is a front-matter fence: three dashes, alone up to
/// surrounding blanks.
pub open spec fn spec_is_fence(l: Seq<char>) -> bool {
    spec_trim_blank(l) == "---"@
}

pub open spec fn spec_is_blank_char(c: char) -> bool {
    c == ' ' || c == '\t' || c == '\r'
}

/// The line with leading and trailing blanks dropped.
pub open spec fn spec_trim_blank(l: Seq<char>) -> Seq<char>
    decreases l.len(),
{
    if l.len() == 0 {
        l
    } else if spec_is_blank_char(l.first()) {
        spec_trim_blank(l.drop_first())
    } else if spec_is_blank_char(l.last()) {
        spec_trim_blank(l.drop_last())
    } else {
        l
    }
}

/// The front-matter/body state machine, one line at a time: text before
/// the opening fence is dropped, lines between the fences are the front
/// matter, lines after the closing fence are the body; a meta-only read
/// stops at the closing fence.
pub open spec fn spec_split_fm(
    lines: Seq<Seq<char>>,
    inside: bool,
    found: bool,
    fm: Seq<char>,
    body: Seq<char>,
    only_meta: bool,
) -> (Seq<char>, Seq<char>)
    decreases lines.len(),
{
    if lines.len() == 0 {
        (fm, body)
    } else {
        let l = lines.first();
        let rest = lines.drop_first();
        if spec_is_fence(l) && !inside && !found {
            spec_split_fm(rest, true, false, fm, Seq::empty(), only_meta)
        } else if !spec_is_fence(l) && inside {
            spec_split_fm(rest, true, found, fm + l + seq!['\n'], body, only_meta)
        } else if spec_is_fence(l) && inside {
            if only_meta {
                (fm, body)
            } else {
                spec_split_fm(rest, false, true, fm, body, only_meta)
            }
        } else if found {
            spec_split_fm(rest, inside, true, fm, body + l + seq!['\n'], only_meta)
        } else {
            spec_split_fm(rest, inside, found, fm, body, only_meta)
        }
    }
}

/// What splitting a whole document yields.
pub open spec fn spec_file_content(s: Seq<char>, only_meta: bool) -> (Seq<char>, Seq<char>) {
    spec_split_fm(spec_lines(s), false, false, Seq::empty(), Seq::empty(), only_meta)
}

/// The lines of a text.
fn split_lines(text: &str) -> (r: Vec<String>)
    ensures
        r.deep_view() == spec_lines(text@),
{
    let len = text.unicode_len();
    let mut out: Vec<String> = Vec::new();
    let mut start: usize = 0;
    let mut i: usize = 0;
    proof {
        assert(text@.skip(0) =~= text@);
        assert(text@.subrange(0, 0) =~= Seq::<char>::empty());
    }
    while i < len
        invariant
            start <= i <= len,
            len == text@.len(),
            spec_lines(text@) =~= out.deep_view() + spec_lines_acc(
                text@.skip(i as int),
                text@.subrange(start as int, i as int),
            ),
        decreases len - i,
    {
        let ghost rem = text@.skip(i as int);
        let ghost cur = text@.subrange(start as int, i as int);
        proof {
            assert(rem.first() == text@[i as int]);
            assert(rem.drop_first() =~= text@.skip(i + 1));
        }
        if text.get_char(i) == '\n' {
            let line = text.substring_char(start, i);
            out.push(strip_cr(line));
            proof {
                assert(spec_lines_acc(rem, cur) =~= seq![spec_strip_cr(cur)] + spec_lines_acc(
                    text@.skip(i + 1),
                    Seq::empty(),
                ));
                assert(out.deep_view().drop_last() =~= out.deep_view().subrange(
                    0,
                    out.deep_view().len() - 1,
                ));
                assert(out.deep_view() =~= out.deep_view().drop_last() + seq![spec_strip_cr(cur)]);
                assert(text@.subrange(i + 1, i + 1) =~= Seq::<char>::empty());
            }
            start = i + 1;
        } else {
            proof {
                assert(text@.subrange(start as int, i + 1) =~= cur.push(text@[i as int]));
            }
        }
        i = i + 1;
    }
    proof {
        assert(text@.skip(len as int).len() == 0);
    }
    if start < len {
        let line = text.substring_char(start, len);
        out.push(strip_cr(line));
        proof {
            assert(out.deep_view() =~= out.deep_view().drop_last() + seq![spec_strip_cr(
                text@.subrange(start as int, len as int),
            )]);
        }
    } else {
        proof {
            assert(text@.subrange(start as int, len as int).len() == 0);
        }
    }
    out
}

/// The line with a trailing carriage return dropped.
fn strip_cr(l: &str) -> (r: String)
    ensures
        r@ == spec_strip_cr(l@),
{
    let len = l.unicode_len();
    if len > 0 && l.get_char(len - 1) == '\r' {
        let r = l.substring_char(0, len - 1);
        proof {
            assert(l@.subrange(0, len - 1) =~= l@.drop_last());
        }
        r.to_owned()
    } else {
        l.to_owned()
    }
}

/// Whether a line is a front-matter fence.
fn is_fence(l: &str) -> (r: bool)
    ensures
        r == spec_is_fence(l@),
{
    let len = l.unicode_len();
    let mut lo: usize = 0;
    let mut hi: usize = len;
    proof {
        assert(l@.subrange(0, len as int) =~= l@);
    }
    while lo < hi && is_blank(l.get_char(lo))
        invariant
            lo <= hi <= len,
            len == l@.len(),
            spec_trim_blank(l@) == spec_trim_blank(l@.subrange(lo as int, hi as int)),
        decreases hi - lo,
    {
        proof {
            assert(l@.subrange(lo as int, hi as int).drop_first() =~= l@.subrange(
                lo + 1,
                hi as int,
            ));
        }
        lo = lo + 1;
    }
    while lo < hi && is_blank(l.get_char(hi - 1))
        invariant
            lo <= hi <= len,
            len == l@.len(),
            lo < hi ==> !spec_is_blank_char(l@[lo as int]),
            spec_trim_blank(l@) == spec_trim_blank(l@.subrange(lo as int, hi as int)),
        decreases hi,
    {
        proof {
            assert(l@.subrange(lo as int, hi as int).drop_last() =~= l@.subrange(
                lo as int,
                hi - 1,
            ));
        }
        hi = hi - 1;
    }
    proof {
        let mid = l@.subrange(lo as int, hi as int);
        if mid.len() > 0 {
            assert(!spec_is_blank_char(mid.first()));
            assert(!spec_is_blank_char(mid.last()));
        }
        assert(spec_trim_blank(mid) == mid);
        reveal_strlit("---");
    }
    let trimmed = l.substring_char(lo, hi);
    crate::paths::str_eq(trimmed, "---")
}

fn is_blank(c: char) -> (r: bool)
    ensures
        r == spec_is_blank_char(c),
{
    c == ' ' || c == '\t' || c == '\r'
}

/// Splits a document into front matter and body, per the fence state
/// machine; a meta-only read stops at the closing fence and leaves the
/// body empty.
pub fn get_file_content(text: &str, read_mode: &FileReadMode) -> (r: FileContent)
    ensures
        ({
            let only_meta = read_mode is OnlyMeta;
            let (fm, body) = spec_file_content(text@, only_meta);
            r.front_matter@ == fm && r.content@ == body
        }),
{
    let only_meta = match read_mode {
        FileReadMode::OnlyMeta => true,
        FileReadMode::FullFile => false,
    };
    let lines = split_lines(text);
    let mut fm = String::new();
    let mut body = String::new();
    let mut inside = false;
    let mut found = false;
    let mut i: usize = 0;
    proof {
        assert(lines.deep_view().skip(0) =~= lines.deep_view());
    }
    while i < lines.len()
        invariant
            i <= lines@.len(),
            only_meta == read_mode is OnlyMeta,
            lines.deep_view() == spec_lines(text@),
            spec_file_content(text@, only_meta) == spec_split_fm(
                lines.deep_view().skip(i as int),
                inside,
                found,
                fm@,
                body@,
                only_meta,
            ),
            !(inside && found),
        decreases lines@.len() - i,
    {
        proof {
            assert(lines.deep_view().skip(i as int).first() == lines@[i as int]@);
            assert(lines.deep_view().skip(i as int).drop_first() =~= lines.deep_view().skip(i + 1));
        }
        let fence = is_fence(lines[i].as_str());
        if fence && !inside && !found {
            inside = true;
            body = String::new();
        } else if !fence && inside {
            fm.append(lines[i].as_str());
            fm.append("\n");
            proof {
                reveal_strlit("\n");
                assert("\n"@ =~= seq!['\n']);
            }
        } else if fence && inside {
            if only_meta {
                proof {
                    assert(spec_split_fm(
                        lines.deep_view().skip(i as int),
                        inside,
                        found,
                        fm@,
                        body@,
                        only_meta,
                    ) == (fm@, body@));
                }
                return FileContent { front_matter: fm, content: body };
            }
            inside = false;
            found = true;
        } else if found {
            body.append(lines[i].as_str());
            body.append("\n");
            proof {
                reveal_strlit("\n");
                assert("\n"@ =~= seq!['\n']);
            }
        }
        i = i + 1;
    }
    proof {
        assert(lines.deep_view().skip(lines@.len() as int).len() == 0);
    }
    FileContent { front_matter: fm, content: body }
}

/// The document written back to disk: the front matter between fences,
/// then the body.
pub fn frame_document(front_matter_yaml: &str, markdown: &str) -> (r: String)
    ensures
        r@ == "---\n"@ + front_matter_yaml@ + "---\n"@ + markdown@,
{
    let mut out = String::new();
    out.append("---\n");
    out.append(front_matter_yaml);
    out.append("---\n");
    out.append(markdown);
    proof {
        assert(out@ =~= "---\n"@ + front_matter_yaml@ + "---\n"@ + markdown@);
    }
    out
}

/// The conflict check of the save path.  An unforced save of a record
/// that carries a modification time must first confirm the file on disk
/// still carries that same time: a changed time means something else
/// wrote the file, and only a forced save may overwrite it.  A save
/// without a recorded time, or a forced one, passes.
pub fn save_conflict_check(
    record_modified: Option<i64>,
    forced: bool,
    disk_modified: &Option<Result<i64, String>>,
) -> (r: Result<(), ErrFR>)
    requires
        !forced && record_modified is Some ==> disk_modified is Some,
    ensures
        forced ==> r is Ok,
        !forced ==> (match (record_modified, disk_modified) {
            (None, _) => r is Ok,
            (Some(v), Some(Ok(m))) => if m == v {
                r is Ok
            } else {
                r matches Err(e) && e.title@ == "File was modified by something else"@
                    && e.action_code == Some(ErrFRActionCode::FileSaveRetryForced)
            },
            (Some(v), Some(Err(_))) => r matches Err(e) && e.title@
                == "Unable to get modified date from file on disk"@ && e.action_code == Some(
                ErrFRActionCode::FileSaveRetryForced,
            ),
            (Some(v), None) => true,
        }),
{
    proof {
        reveal_strlit("File was modified by something else");
        reveal_strlit("Unable to get modified date from file on disk");
    }
    if forced {
        return Ok(());
    }
    let v = match record_modified {
        Some(v) => v,
        None => {
            return Ok(());
        },
    };
    match disk_modified {
        Some(Ok(m)) => {
            if *m == v {
                Ok(())
            } else {
                Err(
                    ErrFR::new("File was modified by something else").action_c(
                        ErrFRActionCode::FileSaveRetryForced,
                        "Overwrite",
                    ),
                )
            }
        },
        Some(Err(e)) => Err(
            ErrFR::new("Unable to get modified date from file on disk").info(
                "Retry only if you are sure there is no important data in file on disk",
            ).action_c(ErrFRActionCode::FileSaveRetryForced, "Save anyway").raw(e.as_str()),
        ),
        None => Ok(()),
    }
}

} // verus!
