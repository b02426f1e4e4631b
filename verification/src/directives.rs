//! Editing of the sandbox configuration: adding a directive line unless an
//! equal one (after trimming) is already present, removing every line that
//! equals a directive, and building the directive lines that open or block
//! paths and registry keys.

use crate::text::{push_char, split_lines, split_lines_str, str_eq, trim, trim_str};
use vstd::prelude::*;

verus! {

/// Some line of `content` equals `directive` after trimming.
pub open spec fn has_directive(content: Seq<char>, directive: Seq<char>) -> bool {
    exists|i: int|
        0 <= i < split_lines(content).len() && trim(#[trigger] split_lines(content)[i])
            == directive
}

/// The content with `directive` appended on a new line, unless some line
/// already equals it after trimming, in which case the content is unchanged.
pub open spec fn add_directive_spec(content: Seq<char>, directive: Seq<char>) -> Seq<char> {
    if has_directive(content, directive) {
        content
    } else {
        content + "\n"@ + directive
    }
}

/// Add a directive line to a configuration text, as [`add_directive_spec`]
/// describes.
pub fn add_directive(content: &str, directive: &str) -> (r: String)
    ensures
        r@ == add_directive_spec(content@, directive@),
{
    let lines = split_lines_str(content);
    let n = lines.len();
    let mut i: usize = 0;
    while i < n
        invariant
            n == lines@.len(),
            n == split_lines(content@).len(),
            forall|k: int| 0 <= k < n ==> #[trigger] lines@[k]@ == split_lines(content@)[k],
            i <= n,
            forall|k: int| 0 <= k < i ==> trim(#[trigger] split_lines(content@)[k]) != directive@,
        decreases n - i,
    {
        if str_eq(trim_str(lines[i]), directive) {
            proof {
                assert(trim(split_lines(content@)[i as int]) == directive@);
            }
            return content.to_owned();
        }
        i = i + 1;
    }
    content.to_owned().concat("\n").concat(directive)
}

/// The predicate that keeps a line: it does not equal the directive after
/// trimming.
pub open spec fn keeps(directive: Seq<char>) -> spec_fn(Seq<char>) -> bool {
    |l: Seq<char>| trim(l) != directive
}

/// Lines joined with a line feed between each pair.
pub open spec fn join_lines(ls: Seq<Seq<char>>) -> Seq<char>
    decreases ls.len(),
{
    if ls.len() == 0 {
        seq![]
    } else if ls.len() == 1 {
        ls[0]
    } else {
        ls[0] + seq!['\n'] + join_lines(ls.drop_first())
    }
}

/// The lines of the content, each kept unless it equals the directive after
/// trimming, joined by line feeds.
pub open spec fn remove_directive_spec(content: Seq<char>, directive: Seq<char>) -> Seq<char> {
    join_lines(split_lines(content).filter(keeps(directive)))
}

proof fn lemma_join_lines_push(ls: Seq<Seq<char>>, l: Seq<char>)
    ensures
        join_lines(ls.push(l)) == if ls.len() == 0 {
            l
        } else {
            join_lines(ls) + seq!['\n'] + l
        },
    decreases ls.len(),
{
    if ls.len() == 0 {
        assert(ls.push(l)[0] == l);
    } else {
        assert(ls.push(l)[0] == ls[0]);
        assert(ls.push(l).drop_first() =~= ls.drop_first().push(l));
        lemma_join_lines_push(ls.drop_first(), l);
        if ls.len() == 1 {
            assert(join_lines(ls.push(l)) == ls[0] + seq!['\n'] + l);
        } else {
            assert(ls[0] + seq!['\n'] + (join_lines(ls.drop_first()) + seq!['\n'] + l) =~= (ls[0]
                + seq!['\n'] + join_lines(ls.drop_first())) + seq!['\n'] + l);
        }
    }
}

proof fn lemma_filter_push(ls: Seq<Seq<char>>, l: Seq<char>, p: spec_fn(Seq<char>) -> bool)
    ensures
        ls.push(l).filter(p) == if p(l) {
            ls.filter(p).push(l)
        } else {
            ls.filter(p)
        },
{
    assert(ls.push(l).drop_last() =~= ls);
    assert(ls.push(l).last() == l);
    reveal_with_fuel(Seq::<_>::filter, 2);
}

/// Remove every directive line from a configuration text, as
/// [`remove_directive_spec`] describes.
pub fn remove_directive(content: &str, directive: &str) -> (r: String)
    ensures
        r@ == remove_directive_spec(content@, directive@),
{
    let lines = split_lines_str(content);
    let n = lines.len();
    let mut out = String::new();
    let mut first = true;
    let mut i: usize = 0;
    proof {
        reveal_with_fuel(Seq::<_>::filter, 1);
        assert(split_lines(content@).take(0) =~= Seq::<Seq<char>>::empty());
        assert(Seq::<Seq<char>>::empty().filter(keeps(directive@)) =~= Seq::<Seq<char>>::empty());
    }
    while i < n
        invariant
            n == lines@.len(),
            n == split_lines(content@).len(),
            forall|k: int| 0 <= k < n ==> #[trigger] lines@[k]@ == split_lines(content@)[k],
            i <= n,
            out@ == join_lines(split_lines(content@).take(i as int).filter(keeps(directive@))),
            first == (split_lines(content@).take(i as int).filter(keeps(directive@)).len() == 0),
        decreases n - i,
    {
        let line = lines[i];
        let ghost taken = split_lines(content@).take(i as int);
        proof {
            assert(split_lines(content@).take(i as int + 1) =~= taken.push(line@));
            lemma_filter_push(taken, line@, keeps(directive@));
            lemma_join_lines_push(taken.filter(keeps(directive@)), line@);
        }
        if !str_eq(trim_str(line), directive) {
            if first {
                first = false;
            } else {
                push_char(&mut out, '\n');
            }
            out.append(line);
            proof {
                assert(out@ =~= join_lines(
                    split_lines(content@).take(i as int + 1).filter(keeps(directive@)),
                ));
            }
        }
        i = i + 1;
    }
    proof {
        assert(split_lines(content@).take(n as int) =~= split_lines(content@));
    }
    out
}

/// A directive that lets the sandbox open a file path.
pub fn open_file_path_directive(path: &str) -> (r: String)
    ensures
        r@ == "OpenFilePath="@ + path@,
{
    "OpenFilePath=".to_owned().concat(path)
}

/// A directive that blocks writes under a file path.
pub fn write_file_path_directive(path: &str) -> (r: String)
    ensures
        r@ == "WriteFilePath="@ + path@,
{
    "WriteFilePath=".to_owned().concat(path)
}

/// A directive that blocks writes under a registry key path.
pub fn write_key_path_directive(path: &str) -> (r: String)
    ensures
        r@ == "WriteKeyPath="@ + path@,
{
    "WriteKeyPath=".to_owned().concat(path)
}

/// The per-user cache directories whose writes the sandbox configuration
/// blocks or unblocks. The caller that knows the platform fills in the paths.
pub struct CacheDirectories {
    pub local_app_data: String,
    pub roaming: String,
    pub local_low: String,
}

impl CacheDirectories {
    /// The three directives that block writes under the cache directories,
    /// in a fixed order.
    pub fn write_directives(&self) -> (r: Vec<String>)
        ensures
            r@.len() == 3,
            r@[0]@ == "WriteFilePath="@ + self.local_app_data@,
            r@[1]@ == "WriteFilePath="@ + self.roaming@,
            r@[2]@ == "WriteFilePath="@ + self.local_low@,
    {
        let mut r: Vec<String> = Vec::new();
        r.push(write_file_path_directive(self.local_app_data.as_str()));
        r.push(write_file_path_directive(self.roaming.as_str()));
        r.push(write_file_path_directive(self.local_low.as_str()));
        r
    }
}

} // verus!
