//! Parsing of the manifest wire format: plaintext and line-oriented. Every
//! line before the header line is ignored; a text with no header line at all
//! is malformed. After the header, a line shorter than 70 characters is a
//! non-data line (such as a footer) and is skipped; a longer line declares
//! one entry, read from fixed character columns. A duplicate name overwrites
//! the earlier entry.

use crate::manifest::{EntrySpec, FileInfo, VersionManifest};
use crate::text::{
    is_header_line,
    is_header_line_str,
    parse_u64,
    parse_u64_str,
    split_lines,
    split_lines_str,
    trim,
    trim_str,
};
use vstd::prelude::*;

verus! {

/// The manifest text was retrieved but is malformed: no line of the text is
/// the header, or the size field of a data line does not read as an unsigned
/// decimal number. Either way the remote format has changed.
#[derive(Clone, Copy, Debug, PartialEq, Eq, Structural)]
pub struct ParseError;

/// The declared size of a data line: characters [0, 14), trimmed, read as an
/// unsigned decimal number.
pub open spec fn line_size(line: Seq<char>) -> Option<u64> {
    parse_u64(trim(line.subrange(0, 14)))
}

/// The declared hash of a data line: characters [22, 63), trimmed, kept
/// verbatim otherwise.
pub open spec fn line_sha(line: Seq<char>) -> Seq<char> {
    trim(line.subrange(22, 63))
}

/// The declared name of a data line: characters from 69 on, trimmed.
pub open spec fn line_name(line: Seq<char>) -> Seq<char> {
    trim(line.subrange(69, line.len() as int))
}

/// The parse of the lines of a manifest text, folded left to right. Before
/// the header every line only decides whether it is the header. After the
/// header, a line shorter than 70 characters adds nothing; a longer line adds
/// the entry it declares, overwriting a previous entry of the same name, or
/// ends the parse with nothing when its size field does not read as a number.
pub open spec fn parse_lines(
    lines: Seq<Seq<char>>,
    after_header: bool,
    acc: Map<Seq<char>, EntrySpec>,
) -> Option<Map<Seq<char>, EntrySpec>>
    decreases lines.len(),
{
    if lines.len() == 0 {
        Some(acc)
    } else {
        let line = lines[0];
        if after_header {
            if line.len() < 70 {
                parse_lines(lines.drop_first(), true, acc)
            } else {
                match line_size(line) {
                    None => None,
                    Some(size) => parse_lines(
                        lines.drop_first(),
                        true,
                        acc.insert(line_name(line), EntrySpec { size, sha: line_sha(line) }),
                    ),
                }
            }
        } else {
            parse_lines(lines.drop_first(), is_header_line(line), acc)
        }
    }
}

/// Some line of the text is the header line.
pub open spec fn has_header(lines: Seq<Seq<char>>) -> bool {
    exists|i: int| 0 <= i < lines.len() && is_header_line(#[trigger] lines[i])
}

/// The mapping described by a manifest text, or nothing when the text is
/// malformed: when it has no header line, or when a data line's size field
/// does not read as a number.
pub open spec fn parse_manifest_spec(text: Seq<char>) -> Option<Map<Seq<char>, EntrySpec>> {
    if has_header(split_lines(text)) {
        parse_lines(split_lines(text), false, Map::empty())
    } else {
        None
    }
}

/// Parse a manifest text into the mapping that [`parse_manifest_spec`]
/// describes.
pub fn parse_manifest(text: &str) -> (r: Result<VersionManifest, ParseError>)
    ensures
        match r {
            Ok(m) => m.wf() && parse_manifest_spec(text@) == Some(m@),
            Err(_) => parse_manifest_spec(text@) is None,
        },
{
    let lines = split_lines_str(text);
    let n = lines.len();
    let mut m = VersionManifest::new();
    let mut after_header = false;
    let mut i: usize = 0;
    let ghost lviews = split_lines(text@);
    proof {
        assert(lviews.skip(0) =~= lviews);
    }
    while i < n
        invariant
            m.wf(),
            n == lines@.len(),
            i <= n,
            lviews == split_lines(text@),
            lviews.len() == n,
            forall|k: int| 0 <= k < n ==> #[trigger] lines@[k]@ == lviews[k],
            after_header <==> exists|j: int| 0 <= j < i && is_header_line(#[trigger] lviews[j]),
            parse_lines(lviews, false, Map::empty()) == parse_lines(
                lviews.skip(i as int),
                after_header,
                m@,
            ),
        decreases n - i,
    {
        let line = lines[i];
        let ghost rest = lviews.skip(i as int);
        proof {
            assert(rest[0] == lviews[i as int]);
            assert(rest.drop_first() =~= lviews.skip(i as int + 1));
        }
        if after_header {
            let llen = line.unicode_len();
            if llen >= 70 {
                let size_field = trim_str(line.substring_char(0, 14));
                let size = match parse_u64_str(size_field) {
                    None => {
                        proof {
                            assert(has_header(lviews));
                        }
                        return Err(ParseError);
                    },
                    Some(v) => v,
                };
                let sha = trim_str(line.substring_char(22, 63));
                let name = trim_str(line.substring_char(69, llen));
                let info = FileInfo { size, sha: sha.to_owned() };
                proof {
                    assert(info@ == EntrySpec { size, sha: line_sha(line@) });
                }
                m.insert(name.to_owned(), info);
            }
        } else {
            after_header = is_header_line_str(line);
            proof {
                if after_header {
                    assert(is_header_line(lviews[i as int]));
                }
            }
        }
        i = i + 1;
    }
    proof {
        assert(lviews.skip(n as int) =~= Seq::<Seq<char>>::empty());
    }
    if !after_header {
        proof {
            assert(!has_header(lviews));
        }
        return Err(ParseError);
    }
    proof {
        assert(has_header(lviews));
    }
    Ok(m)
}

/// A post-header line shorter than 70 characters yields no entry and no
/// error: the parse of the remaining lines is unchanged.
pub proof fn lemma_short_line_ignored(
    line: Seq<char>,
    rest: Seq<Seq<char>>,
    acc: Map<Seq<char>, EntrySpec>,
)
    requires
        line.len() < 70,
    ensures
        parse_lines(seq![line] + rest, true, acc) == parse_lines(rest, true, acc),
{
    assert((seq![line] + rest)[0] == line);
    assert((seq![line] + rest).drop_first() =~= rest);
}

/// A post-header line of at least 70 characters whose size field reads as a
/// number declares exactly one entry: the size from characters [0, 14), the
/// hash from characters [22, 63) and the name from character 69 on, each
/// trimmed.
pub proof fn lemma_data_line_entry(
    line: Seq<char>,
    rest: Seq<Seq<char>>,
    acc: Map<Seq<char>, EntrySpec>,
    size: u64,
)
    requires
        line.len() >= 70,
        line_size(line) == Some(size),
    ensures
        parse_lines(seq![line] + rest, true, acc) == parse_lines(
            rest,
            true,
            acc.insert(line_name(line), EntrySpec { size, sha: line_sha(line) }),
        ),
{
    assert((seq![line] + rest)[0] == line);
    assert((seq![line] + rest).drop_first() =~= rest);
}

/// A text with no header line is malformed: the parse yields nothing, never
/// an empty manifest.
pub proof fn lemma_missing_header_rejected(text: Seq<char>)
    requires
        !has_header(split_lines(text)),
    ensures
        parse_manifest_spec(text) is None,
{
}

/// Parsing correctness: a manifest text whose lines are the header and one
/// data line of at least 70 characters, with a size field that reads as a
/// number, describes exactly that line's entry — the size from characters
/// [0, 14), the hash from characters [22, 63) and the name from character 69
/// on, each trimmed.
pub proof fn lemma_parse_single_entry(text: Seq<char>, size: u64)
    requires
        split_lines(text).len() == 2,
        is_header_line(split_lines(text)[0]),
        split_lines(text)[1].len() >= 70,
        line_size(split_lines(text)[1]) == Some(size),
    ensures
        parse_manifest_spec(text) == Some(
            Map::<Seq<char>, EntrySpec>::empty().insert(
                line_name(split_lines(text)[1]),
                (EntrySpec { size, sha: line_sha(split_lines(text)[1]) }),
            ),
        ),
{
    let lines = split_lines(text);
    assert(has_header(lines));
    let tail = lines.drop_first();
    assert(tail[0] == lines[1]);
    assert(tail.len() == 1);
    assert(parse_lines(lines, false, Map::empty()) == parse_lines(tail, true, Map::empty()));
    let acc = Map::<Seq<char>, EntrySpec>::empty().insert(
        line_name(lines[1]),
        EntrySpec { size, sha: line_sha(lines[1]) },
    );
    assert(tail.drop_first().len() == 0);
    assert(parse_lines(tail, true, Map::empty()) == parse_lines(tail.drop_first(), true, acc));
    assert(parse_lines(tail.drop_first(), true, acc) == Some(acc));
}

} // verus!
