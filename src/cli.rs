//! What the command line selects, and the text handling around its input files.
use vstd::prelude::*;

use crate::text::{has_prefix, starts_with, trim, trimmed};

verus! {

/// The command line: one subcommand, where one was given.
pub struct Cli {
    pub command: Option<Commands>,
}

/// The two pipelines.
pub enum Commands {
    /// Download a video stream from its fragment list.
    HLS(HLSCommand),
    /// Download an e-book.
    EB(EBCommand),
}

/// Options of the e-book pipeline.
pub struct EBCommand {
    /// Path of the configuration file.
    pub input: Option<String>,
    /// Whether requests use HTTP/2.
    pub h2: bool,
    /// Path of the header file.
    pub headers: Option<String>,
    /// Whether chapter titles are numbered.
    pub chapter_num: bool,
}

/// Options of the video pipeline.
pub struct HLSCommand {
    /// Path of the fragment list.
    pub input: Option<String>,
    /// Path of the header file.
    pub headers: Option<String>,
    /// Whether fragments carry an image signature to strip.
    pub png: bool,
    /// Whether the working directory is kept.
    pub keep: bool,
    /// Name of the video, without extension.
    pub output: Option<String>,
    /// Whether requests use HTTP/2.
    pub h2: bool,
    /// Whether fragments are fetched concurrently.
    pub multi_thread: bool,
    /// Seconds to pause after each fetch.
    pub delay: Option<u64>,
    /// Attempts allowed after a failed one.
    pub retry: Option<u8>,
}

/// The pieces of `s` between line breaks, in order; one more than it has line breaks.
pub open spec fn split_lines(s: Seq<char>) -> Seq<Seq<char>>
    decreases s.len(),
{
    if s.len() == 0 {
        seq![Seq::empty()]
    } else {
        let head = split_lines(s.drop_last());
        if s.last() == '\n' {
            head.push(Seq::empty())
        } else {
            head.update(head.len() - 1, head.last().push(s.last()))
        }
    }
}

/// The pieces that hold more than white space, trimmed, in order.
pub open spec fn kept_lines(pieces: Seq<Seq<char>>) -> Seq<Seq<char>>
    decreases pieces.len(),
{
    if pieces.len() == 0 {
        Seq::empty()
    } else {
        let head = kept_lines(pieces.drop_last());
        if trimmed(pieces.last()).len() == 0 {
            head
        } else {
            head.push(trimmed(pieces.last()))
        }
    }
}

/// The lines of a text file: each line trimmed, blank lines left out.
pub open spec fn text_lines(s: Seq<char>) -> Seq<Seq<char>> {
    kept_lines(split_lines(s))
}

/// The lines of a file's content, trimmed, without the blank ones.
pub fn get_lines(content: &str) -> (r: Vec<String>)
    ensures
        r@.map_values(|l: String| l@) == text_lines(content@),
{
    let n = content.unicode_len();
    let mut out: Vec<String> = Vec::new();
    let mut start: usize = 0;
    let mut i: usize = 0;
    let ghost mut done: Seq<Seq<char>> = Seq::empty();
    assert(content@.subrange(0, 0) =~= Seq::<char>::empty());
    assert(split_lines(Seq::<char>::empty()) =~= done.push(content@.subrange(0, 0)));
    while i < n
        invariant
            start <= i <= n,
            n == content@.len(),
            split_lines(content@.subrange(0, i as int)) == done.push(
                content@.subrange(start as int, i as int),
            ),
            out@.map_values(|l: String| l@) == kept_lines(done),
        decreases n - i,
    {
        let c = content.get_char(i);
        let ghost prefix = content@.subrange(0, i as int);
        let ghost next = content@.subrange(0, i + 1);
        assert(next.drop_last() =~= prefix);
        assert(next.last() == c);
        if c == '\n' {
            let piece = trim(content.substring_char(start, i));
            let ghost seg = content@.subrange(start as int, i as int);
            proof {
                assert(done.push(seg).drop_last() =~= done);
            }
            if piece.unicode_len() > 0 {
                out.push(String::from_str(piece));
                assert(out@.map_values(|l: String| l@) =~= kept_lines(done).push(trimmed(seg)));
            }
            proof {
                done = done.push(seg);
            }
            start = i + 1;
            assert(content@.subrange(start as int, i + 1) =~= Seq::<char>::empty());
        } else {
            assert(content@.subrange(start as int, i + 1) =~= content@.subrange(
                start as int,
                i as int,
            ).push(c));
            assert(split_lines(next) =~= done.push(content@.subrange(start as int, i + 1)));
        }
        i = i + 1;
    }
    let piece = trim(content.substring_char(start, n));
    let ghost seg = content@.subrange(start as int, n as int);
    assert(content@.subrange(0, n as int) =~= content@);
    assert(done.push(seg).drop_last() =~= done);
    if piece.unicode_len() > 0 {
        out.push(String::from_str(piece));
        assert(out@.map_values(|l: String| l@) =~= kept_lines(done).push(trimmed(seg)));
    }
    out
}

/// A message followed by what it is about, each on a line of its own.
pub fn get_format_msg(base_msg: &str, format_obj: &str) -> (r: String)
    ensures
        r@ == seq!['\n'] + base_msg@ + seq!['\n'] + format_obj@,
{
    let mut r = String::from_str("\n");
    r.append(base_msg);
    r.append("\n");
    r.append(format_obj);
    proof {
        reveal_strlit("\n");
    }
    assert(r@ =~= seq!['\n'] + base_msg@ + seq!['\n'] + format_obj@);
    r
}

/// Keeps the input lines that are links: those that start with `http`, in their order.
pub fn link_filter(lines: Vec<String>) -> (r: Vec<String>)
    ensures
        r@.map_values(|s: String| s@) == lines@.map_values(|s: String| s@).filter(
            |s: Seq<char>| has_prefix(s, seq!['h', 't', 't', 'p']),
        ),
{
    let ghost all = lines@.map_values(|s: String| s@);
    let ghost keep = |s: Seq<char>| has_prefix(s, seq!['h', 't', 't', 'p']);
    let mut out: Vec<String> = Vec::new();
    let mut i: usize = 0;
    while i < lines.len()
        invariant
            i <= lines@.len(),
            all == lines@.map_values(|s: String| s@),
            keep == (|s: Seq<char>| has_prefix(s, seq!['h', 't', 't', 'p'])),
            out@.map_values(|s: String| s@) == all.subrange(0, i as int).filter(keep),
        decreases lines@.len() - i,
    {
        proof {
            reveal_strlit("http");
            reveal(Seq::filter);
        }
        let ghost prefix = all.subrange(0, i as int);
        assert(all.subrange(0, i + 1).drop_last() =~= prefix);
        assert(all.subrange(0, i + 1) =~= prefix.push(all[i as int]));
        assert(all.subrange(0, i + 1).last() == all[i as int]);
        assert(all[i as int] == lines@[i as int]@);
        assert("http"@ =~= seq!['h', 't', 't', 'p']);
        if starts_with(lines[i].as_str(), "http") {
            assert(keep(all[i as int]));
            assert(all.subrange(0, i + 1).filter(keep) == prefix.filter(keep).push(all[i as int]));
            out.push(lines[i].clone());
            assert(out@.map_values(|s: String| s@) =~= all.subrange(0, i as int).filter(keep).push(
                all[i as int],
            ));
        } else {
            assert(!keep(all[i as int]));
            assert(all.subrange(0, i + 1).filter(keep) == prefix.filter(keep));
        }
        i = i + 1;
    }
    assert(all.subrange(0, lines@.len() as int) =~= all);
    out
}

} // verus!
