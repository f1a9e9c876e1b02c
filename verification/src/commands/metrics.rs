//! Metrics commands: line metrics and manifest inspection.
//!
//! Reading project files, walking directories and running external
//! tools are I/O and stay outside; what lives here are the decisions
//! taken over the text those reads produce: classifying each line of a
//! source file as code, comment or blank, counting declarations, and
//! recognizing a workspace manifest.

use vstd::prelude::*;
use vstd::slice::slice_index_get;
use crate::bytes::{contains, spec_contains, spec_starts_with, starts_with};

verus! {

pub struct MetricsCommands;

/// `[workspace]` as bytes.
pub open spec fn k_workspace_header() -> Seq<u8> {
    seq![91u8, 119, 111, 114, 107, 115, 112, 97, 99, 101, 93]
}

// ---------------------------------------------------------------------
// Splitting text into lines
// ---------------------------------------------------------------------

/// Smallest index `j >= i` holding a line feed, if any.
pub open spec fn spec_find_nl(s: Seq<u8>, i: int) -> Option<int>
    recommends
        0 <= i <= s.len(),
    decreases s.len() - i,
    when 0 <= i <= s.len()
{
    if i >= s.len() {
        None
    } else if s[i] == 10 {
        Some(i)
    } else {
        spec_find_nl(s, i + 1)
    }
}

/// The lines of `s`: the segments between line feeds.  A trailing line
/// feed ends the last line rather than opening an empty one.
pub open spec fn spec_lines(s: Seq<u8>) -> Seq<Seq<u8>>
    decreases s.len(),
{
    if s.len() == 0 {
        Seq::empty()
    } else {
        match spec_find_nl(s, 0) {
            None => seq![s],
            Some(j) => {
                if 0 <= j < s.len() {
                    seq![s.subrange(0, j)] + spec_lines(s.skip(j + 1))
                } else {
                    seq![s]
                }
            },
        }
    }
}

proof fn lemma_find_nl_at(s: Seq<u8>, i: int, j: int)
    requires
        0 <= i <= j < s.len(),
        forall|k: int| i <= k < j ==> s[k] != 10,
        s[j] == 10,
    ensures
        spec_find_nl(s, i) == Some(j),
    decreases j - i,
{
    if i < j {
        lemma_find_nl_at(s, i + 1, j);
    }
}

proof fn lemma_find_nl_none(s: Seq<u8>, i: int)
    requires
        0 <= i <= s.len(),
        forall|k: int| i <= k < s.len() ==> s[k] != 10,
    ensures
        spec_find_nl(s, i) is None,
    decreases s.len() - i,
{
    if i < s.len() {
        lemma_find_nl_none(s, i + 1);
    }
}

// ---------------------------------------------------------------------
// Trimming a line
// ---------------------------------------------------------------------

/// ASCII whitespace, as `trim` treats it.
pub open spec fn is_ws_byte(b: u8) -> bool {
    b == 32 || b == 9 || b == 10 || b == 11 || b == 12 || b == 13
}

fn is_ws(b: u8) -> (r: bool)
    ensures
        r == is_ws_byte(b),
{
    b == 32 || b == 9 || b == 10 || b == 11 || b == 12 || b == 13
}

pub open spec fn spec_trim_start(s: Seq<u8>) -> Seq<u8>
    decreases s.len(),
{
    if s.len() > 0 && is_ws_byte(s[0]) {
        spec_trim_start(s.drop_first())
    } else {
        s
    }
}

pub open spec fn spec_trim_end(s: Seq<u8>) -> Seq<u8>
    decreases s.len(),
{
    if s.len() > 0 && is_ws_byte(s.last()) {
        spec_trim_end(s.drop_last())
    } else {
        s
    }
}

/// `s` with leading and trailing ASCII whitespace removed.
pub open spec fn spec_trim(s: Seq<u8>) -> Seq<u8> {
    spec_trim_end(spec_trim_start(s))
}

proof fn lemma_trim_start_at(s: Seq<u8>, k: int)
    requires
        0 <= k <= s.len(),
        forall|i: int| 0 <= i < k ==> is_ws_byte(#[trigger] s[i]),
        k == s.len() || !is_ws_byte(s[k]),
    ensures
        spec_trim_start(s) == s.skip(k),
    decreases k,
{
    if k == 0 {
        assert(s.skip(0) =~= s);
    } else {
        let t = s.drop_first();
        assert(forall|i: int| 0 <= i < k - 1 ==> #[trigger] t[i] == s[i + 1]);
        lemma_trim_start_at(t, k - 1);
        assert(t.skip(k - 1) =~= s.skip(k));
    }
}

proof fn lemma_trim_end_at(s: Seq<u8>, k: int)
    requires
        0 <= k <= s.len(),
        forall|i: int| k <= i < s.len() ==> is_ws_byte(#[trigger] s[i]),
        k == 0 || !is_ws_byte(s[k - 1]),
    ensures
        spec_trim_end(s) == s.take(k),
    decreases s.len() - k,
{
    if k == s.len() {
        assert(s.take(k) =~= s);
    } else {
        let t = s.drop_last();
        assert(forall|i: int| 0 <= i < t.len() ==> #[trigger] t[i] == s[i]);
        lemma_trim_end_at(t, k);
        assert(t.take(k) =~= s.take(k));
    }
}

// ---------------------------------------------------------------------
// Classifying lines
// ---------------------------------------------------------------------

/// Line and declaration counts over a file's text.
pub struct ContentStats {
    pub code: int,
    pub comment: int,
    pub blank: int,
    pub functions: int,
    pub structs: int,
    pub enums: int,
    pub traits: int,
}

pub open spec fn stats_zero() -> ContentStats {
    ContentStats { code: 0, comment: 0, blank: 0, functions: 0, structs: 0, enums: 0, traits: 0 }
}

/// Does the trimmed line open a function declaration?
pub open spec fn spec_is_fn_line(t: Seq<u8>) -> bool {
    ||| spec_starts_with(t, seq![102u8, 110, 32])
    ||| spec_starts_with(t, seq![112u8, 117, 98, 32, 102, 110, 32])
    ||| spec_starts_with(t, seq![97u8, 115, 121, 110, 99, 32, 102, 110, 32])
    ||| spec_starts_with(t, seq![112u8, 117, 98, 32, 97, 115, 121, 110, 99, 32, 102, 110, 32])
}

pub open spec fn spec_is_struct_line(t: Seq<u8>) -> bool {
    ||| spec_starts_with(t, seq![115u8, 116, 114, 117, 99, 116, 32])
    ||| spec_starts_with(t, seq![112u8, 117, 98, 32, 115, 116, 114, 117, 99, 116, 32])
}

pub open spec fn spec_is_enum_line(t: Seq<u8>) -> bool {
    ||| spec_starts_with(t, seq![101u8, 110, 117, 109, 32])
    ||| spec_starts_with(t, seq![112u8, 117, 98, 32, 101, 110, 117, 109, 32])
}

pub open spec fn spec_is_trait_line(t: Seq<u8>) -> bool {
    ||| spec_starts_with(t, seq![116u8, 114, 97, 105, 116, 32])
    ||| spec_starts_with(t, seq![112u8, 117, 98, 32, 116, 114, 97, 105, 116, 32])
}

/// Account one trimmed line: inside a block comment every line counts
/// as comment until `*/` appears; a line opening with `/*` is comment
/// and enters the block unless it also closes it; `//` lines are
/// comment; empty lines are blank; anything else is code, and an
/// opening declaration keyword counts its kind.
pub open spec fn spec_line_step(t: Seq<u8>, in_block: bool, st: ContentStats) -> (
    ContentStats,
    bool,
) {
    if in_block {
        (ContentStats { comment: st.comment + 1, ..st }, !spec_contains(t, seq![42u8, 47]))
    } else if spec_starts_with(t, seq![47u8, 42]) {
        (ContentStats { comment: st.comment + 1, ..st }, !spec_contains(t, seq![42u8, 47]))
    } else if spec_starts_with(t, seq![47u8, 47]) {
        (ContentStats { comment: st.comment + 1, ..st }, false)
    } else if t.len() == 0 {
        (ContentStats { blank: st.blank + 1, ..st }, false)
    } else {
        let counted = ContentStats { code: st.code + 1, ..st };
        let with_decl = if spec_is_fn_line(t) {
            ContentStats { functions: counted.functions + 1, ..counted }
        } else if spec_is_struct_line(t) {
            ContentStats { structs: counted.structs + 1, ..counted }
        } else if spec_is_enum_line(t) {
            ContentStats { enums: counted.enums + 1, ..counted }
        } else if spec_is_trait_line(t) {
            ContentStats { traits: counted.traits + 1, ..counted }
        } else {
            counted
        };
        (with_decl, false)
    }
}

/// The counts after the first `k` lines, with the block-comment state
/// they leave behind.
pub open spec fn spec_stats_upto(lines: Seq<Seq<u8>>, k: int) -> (ContentStats, bool)
    decreases k,
{
    if k <= 0 || k > lines.len() {
        (stats_zero(), false)
    } else {
        let prev = spec_stats_upto(lines, k - 1);
        spec_line_step(spec_trim(lines[k - 1]), prev.1, prev.0)
    }
}

/// The counts over all of a file's lines.
pub open spec fn spec_content_stats(s: Seq<u8>) -> ContentStats {
    spec_stats_upto(spec_lines(s), spec_lines(s).len() as int).0
}

/// The first `k` lines decide the first `k` counts, whatever follows.
proof fn lemma_stats_upto_push(lines: Seq<Seq<u8>>, extra: Seq<u8>, k: int)
    requires
        0 <= k <= lines.len(),
    ensures
        spec_stats_upto(lines.push(extra), k) == spec_stats_upto(lines, k),
    decreases k,
{
    if k > 0 {
        lemma_stats_upto_push(lines, extra, k - 1);
        assert(lines.push(extra)[k - 1] == lines[k - 1]);
    }
}

/// No count outruns the number of lines seen.
proof fn lemma_stats_upto_bounds(lines: Seq<Seq<u8>>, k: int)
    requires
        0 <= k,
    ensures
        ({
            let st = spec_stats_upto(lines, k).0;
            0 <= st.code <= k && 0 <= st.comment <= k && 0 <= st.blank <= k && 0 <= st.functions
                <= k && 0 <= st.structs <= k && 0 <= st.enums <= k && 0 <= st.traits <= k
        }),
    decreases k,
{
    if k > 0 {
        lemma_stats_upto_bounds(lines, k - 1);
    }
}

// ---------------------------------------------------------------------
// The executable counter
// ---------------------------------------------------------------------

/// Line and declaration counts for one file's text.
#[derive(Clone, Copy, PartialEq, Eq, Structural, Debug)]
pub struct FileContentStats {
    pub total_lines: usize,
    pub code_lines: usize,
    pub comment_lines: usize,
    pub blank_lines: usize,
    pub functions: usize,
    pub structs: usize,
    pub enums: usize,
    pub traits: usize,
}

impl MetricsCommands {
    /// Does this manifest text declare a workspace?
    pub fn is_workspace_manifest(&self, content: &[u8]) -> (r: bool)
        ensures
            r == spec_contains(content@, k_workspace_header()),
    {
        let pat: Vec<u8> = vec![91u8, 119, 111, 114, 107, 115, 112, 97, 99, 101, 93];
        proof {
            assert(pat@ =~= k_workspace_header());
        }
        contains(content, pat.as_slice())
    }

    /// Count a source file's lines by kind, and its opening
    /// declarations, exactly as [`spec_content_stats`] lays them down.
    pub fn analyze_file_content(&self, content: &[u8]) -> (r: FileContentStats)
        requires
            content@.len() < usize::MAX,
        ensures
            r.total_lines == spec_lines(content@).len(),
            ({
                let st = spec_content_stats(content@);
                &&& r.code_lines == st.code
                &&& r.comment_lines == st.comment
                &&& r.blank_lines == st.blank
                &&& r.functions == st.functions
                &&& r.structs == st.structs
                &&& r.enums == st.enums
                &&& r.traits == st.traits
            }),
    {
        let n = content.len();
        let ghost whole = content@;
        let ghost all_lines = spec_lines(content@);
        let mut pos: usize = 0;
        let ghost mut processed: Seq<Seq<u8>> = Seq::empty();
        let mut in_block = false;
        let mut total: usize = 0;
        let mut code: usize = 0;
        let mut comment: usize = 0;
        let mut blank: usize = 0;
        let mut functions: usize = 0;
        let mut structs: usize = 0;
        let mut enums: usize = 0;
        let mut traits: usize = 0;
        proof {
            assert(whole.skip(0) =~= whole);
        }
        while pos < n
            invariant
                0 <= pos <= n,
                n == whole.len(),
                n < usize::MAX,
                whole == content@,
                all_lines == spec_lines(whole),
                all_lines =~= processed + spec_lines(whole.skip(pos as int)),
                processed.len() <= pos,
                total == processed.len(),
                ({
                    let acc = spec_stats_upto(processed, processed.len() as int);
                    &&& code == acc.0.code
                    &&& comment == acc.0.comment
                    &&& blank == acc.0.blank
                    &&& functions == acc.0.functions
                    &&& structs == acc.0.structs
                    &&& enums == acc.0.enums
                    &&& traits == acc.0.traits
                    &&& in_block == acc.1
                }),
            decreases n - pos,
        {
            // the line runs to the next line feed, or to the end
            let mut nl: usize = pos;
            while nl < n && *slice_index_get(content, nl) != 10
                invariant
                    pos <= nl <= n,
                    n == content@.len(),
                    forall|k: int| pos <= k < nl ==> content@[k] != 10,
                decreases n - nl,
            {
                nl = nl + 1;
            }
            let ghost rest = whole.skip(pos as int);
            let ghost line = whole.subrange(pos as int, nl as int);
            proof {
                assert(forall|k: int| 0 <= k < nl - pos ==> #[trigger] rest[k] != 10);
                if nl < n {
                    assert(rest[nl - pos] == whole[nl as int]);
                    lemma_find_nl_at(rest, 0, nl - pos);
                    assert(rest.subrange(0, nl - pos) =~= line);
                    assert(rest.skip(nl - pos + 1) =~= whole.skip(nl + 1));
                    assert(spec_lines(rest) == seq![line] + spec_lines(whole.skip(nl + 1)));
                } else {
                    lemma_find_nl_none(rest, 0);
                    if rest.len() > 0 {
                        assert(spec_lines(rest) == seq![rest]);
                        assert(rest =~= line);
                    }
                    assert(whole.skip(n as int).len() == 0);
                    assert(spec_lines(whole.skip(n as int)) =~= Seq::<Seq<u8>>::empty());
                    assert(spec_lines(rest) =~= seq![line] + spec_lines(whole.skip(n as int)));
                }
            }
            // trim the line at both ends
            let mut ts: usize = pos;
            while ts < nl && is_ws(*slice_index_get(content, ts))
                invariant
                    pos <= ts <= nl <= n,
                    n == content@.len(),
                    forall|k: int| pos <= k < ts ==> is_ws_byte(#[trigger] content@[k]),
                decreases nl - ts,
            {
                ts = ts + 1;
            }
            let mut te: usize = nl;
            while te > ts && is_ws(*slice_index_get(content, te - 1))
                invariant
                    pos <= ts <= te <= nl <= n,
                    n == content@.len(),
                    forall|k: int| te <= k < nl ==> is_ws_byte(#[trigger] content@[k]),
                decreases te - ts,
            {
                te = te - 1;
            }
            proof {
                assert(forall|k: int| 0 <= k < ts - pos ==> is_ws_byte(#[trigger] line[k]));
                if ts < nl {
                    assert(line[ts - pos] == whole[ts as int]);
                }
                lemma_trim_start_at(line, ts - pos);
                let started = line.skip(ts - pos);
                assert(started =~= whole.subrange(ts as int, nl as int));
                assert(forall|k: int|
                    te - ts <= k < started.len() ==> is_ws_byte(#[trigger] started[k]));
                if te > ts {
                    assert(started[te - 1 - ts] == whole[te - 1]);
                }
                lemma_trim_end_at(started, te - ts);
                assert(started.take(te - ts) =~= whole.subrange(ts as int, te as int));
                assert(spec_trim(line) == whole.subrange(ts as int, te as int));
            }
            let mut trimmed: Vec<u8> = Vec::new();
            let mut ci: usize = ts;
            while ci < te
                invariant
                    ts <= ci <= te <= n,
                    n == content@.len(),
                    trimmed@ == content@.subrange(ts as int, ci as int),
                decreases te - ci,
            {
                trimmed.push(*slice_index_get(content, ci));
                ci = ci + 1;
                assert(trimmed@ =~= content@.subrange(ts as int, ci as int));
            }
            proof {
                assert(trimmed@ == spec_trim(line));
            }
            // classify the line and count it
            let ghost prev = spec_stats_upto(processed, processed.len() as int);
            proof {
                lemma_stats_upto_bounds(processed, processed.len() as int);
            }
            let block_end: Vec<u8> = vec![42u8, 47];
            let block_start: Vec<u8> = vec![47u8, 42];
            let line_comment: Vec<u8> = vec![47u8, 47];
            proof {
                assert(block_end@ =~= seq![42u8, 47]);
                assert(block_start@ =~= seq![47u8, 42]);
                assert(line_comment@ =~= seq![47u8, 47]);
            }
            if in_block {
                comment = comment + 1;
                in_block = !contains(trimmed.as_slice(), block_end.as_slice());
            } else if starts_with(trimmed.as_slice(), block_start.as_slice()) {
                comment = comment + 1;
                in_block = !contains(trimmed.as_slice(), block_end.as_slice());
            } else if starts_with(trimmed.as_slice(), line_comment.as_slice()) {
                comment = comment + 1;
            } else if trimmed.len() == 0 {
                blank = blank + 1;
            } else {
                code = code + 1;
                if self.is_fn_line(&trimmed) {
                    functions = functions + 1;
                } else if self.is_struct_line(&trimmed) {
                    structs = structs + 1;
                } else if self.is_enum_line(&trimmed) {
                    enums = enums + 1;
                } else if self.is_trait_line(&trimmed) {
                    traits = traits + 1;
                }
            }
            total = total + 1;
            proof {
                let old_processed = processed;
                processed = processed.push(line);
                lemma_stats_upto_push(old_processed, line, old_processed.len() as int);
                assert(processed[processed.len() - 1] == line);
                assert(spec_stats_upto(processed, processed.len() as int) == spec_line_step(
                    spec_trim(line),
                    prev.1,
                    prev.0,
                ));
                let next: int = if nl < n {
                    nl as int + 1
                } else {
                    n as int
                };
                assert(processed + spec_lines(whole.skip(next)) =~= old_processed + spec_lines(
                    rest,
                ));
            }
            pos = if nl < n {
                nl + 1
            } else {
                n
            };
        }
        proof {
            assert(whole.skip(n as int).len() == 0);
            assert(spec_lines(whole.skip(n as int)) =~= Seq::<Seq<u8>>::empty());
            assert(processed =~= all_lines);
        }
        FileContentStats {
            total_lines: total,
            code_lines: code,
            comment_lines: comment,
            blank_lines: blank,
            functions,
            structs,
            enums,
            traits,
        }
    }

    /// Does the trimmed line open a function declaration?
    fn is_fn_line(&self, t: &Vec<u8>) -> (r: bool)
        ensures
            r == spec_is_fn_line(t@),
    {
        let p1: Vec<u8> = vec![102u8, 110, 32];
        let p2: Vec<u8> = vec![112u8, 117, 98, 32, 102, 110, 32];
        let p3: Vec<u8> = vec![97u8, 115, 121, 110, 99, 32, 102, 110, 32];
        let p4: Vec<u8> = vec![112u8, 117, 98, 32, 97, 115, 121, 110, 99, 32, 102, 110, 32];
        proof {
            assert(p1@ =~= seq![102u8, 110, 32]);
            assert(p2@ =~= seq![112u8, 117, 98, 32, 102, 110, 32]);
            assert(p3@ =~= seq![97u8, 115, 121, 110, 99, 32, 102, 110, 32]);
            assert(p4@ =~= seq![112u8, 117, 98, 32, 97, 115, 121, 110, 99, 32, 102, 110, 32]);
        }
        starts_with(t.as_slice(), p1.as_slice()) || starts_with(t.as_slice(), p2.as_slice())
            || starts_with(t.as_slice(), p3.as_slice()) || starts_with(
            t.as_slice(),
            p4.as_slice(),
        )
    }

    /// Does the trimmed line open a struct declaration?
    fn is_struct_line(&self, t: &Vec<u8>) -> (r: bool)
        ensures
            r == spec_is_struct_line(t@),
    {
        let p1: Vec<u8> = vec![115u8, 116, 114, 117, 99, 116, 32];
        let p2: Vec<u8> = vec![112u8, 117, 98, 32, 115, 116, 114, 117, 99, 116, 32];
        proof {
            assert(p1@ =~= seq![115u8, 116, 114, 117, 99, 116, 32]);
            assert(p2@ =~= seq![112u8, 117, 98, 32, 115, 116, 114, 117, 99, 116, 32]);
        }
        starts_with(t.as_slice(), p1.as_slice()) || starts_with(t.as_slice(), p2.as_slice())
    }

    /// Does the trimmed line open an enum declaration?
    fn is_enum_line(&self, t: &Vec<u8>) -> (r: bool)
        ensures
            r == spec_is_enum_line(t@),
    {
        let p1: Vec<u8> = vec![101u8, 110, 117, 109, 32];
        let p2: Vec<u8> = vec![112u8, 117, 98, 32, 101, 110, 117, 109, 32];
        proof {
            assert(p1@ =~= seq![101u8, 110, 117, 109, 32]);
            assert(p2@ =~= seq![112u8, 117, 98, 32, 101, 110, 117, 109, 32]);
        }
        starts_with(t.as_slice(), p1.as_slice()) || starts_with(t.as_slice(), p2.as_slice())
    }

    /// Does the trimmed line open a trait declaration?
    fn is_trait_line(&self, t: &Vec<u8>) -> (r: bool)
        ensures
            r == spec_is_trait_line(t@),
    {
        let p1: Vec<u8> = vec![116u8, 114, 97, 105, 116, 32];
        let p2: Vec<u8> = vec![112u8, 117, 98, 32, 116, 114, 97, 105, 116, 32];
        proof {
            assert(p1@ =~= seq![116u8, 114, 97, 105, 116, 32]);
            assert(p2@ =~= seq![112u8, 117, 98, 32, 116, 114, 97, 105, 116, 32]);
        }
        starts_with(t.as_slice(), p1.as_slice()) || starts_with(t.as_slice(), p2.as_slice())
    }
}

} // verus!
