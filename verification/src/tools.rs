//! The workspace tool sandbox's compute cores: path confinement, argument
//! validation, line and byte selection for reads, UTF-8 boundary
//! truncation, output splitting, glob filtering and line matching.  The
//! filesystem walks, reads, writes and child processes stay with the
//! caller, which hands byte contents in and takes plain values back.

use vstd::prelude::*;

use crate::codec::utf8_check;
use crate::json::{clone_string, obj_get, Json, JsonV};
use crate::runner::ToolOutput;
use crate::text::{bytes_to_string_lossy, dec_rep, usize_to_string};
use vstd::string::StringSliceAdditionalSpecFns;
use vstd::utf8::{decode_utf8, valid_utf8};

verus! {

broadcast use vstd::std_specs::vec::group_vec_axioms, vstd::seq::group_seq_axioms;

/// The sandbox configuration: the workspace root and the default caps.
#[derive(Clone, Debug)]
pub struct BuiltinToolConfig {
    pub workspace_root: String,
    pub max_bytes: usize,
    pub max_results: usize,
    pub max_depth: usize,
    pub follow_symlinks: bool,
    pub include_hidden: bool,
}

impl Default for BuiltinToolConfig {
    /// The default caps: 512 KiB per read, a thousand results, depth 64,
    /// symlinks not followed, hidden entries skipped, rooted at the current
    /// directory.
    fn default() -> (r: BuiltinToolConfig)
        ensures
            r.workspace_root@ == "."@,
            r.max_bytes == 524288,
            r.max_results == 1000,
            r.max_depth == 64,
            !r.follow_symlinks,
            !r.include_hidden,
    {
        BuiltinToolConfig {
            workspace_root: String::from_str("."),
            max_bytes: 524288,
            max_results: 1000,
            max_depth: 64,
            follow_symlinks: false,
            include_hidden: false,
        }
    }
}

/// The path starts with a separator: an absolute path.
pub open spec fn path_is_absolute(p: Seq<u8>) -> bool {
    p.len() > 0 && p[0] == 0x2f
}

/// A parent-directory reference stands at `i`: two dots delimited by the
/// path's start, its end, or separators.
pub open spec fn dotdot_at(p: Seq<u8>, i: int) -> bool {
    &&& 0 <= i && i + 2 <= p.len()
    &&& p[i] == 0x2e && p[i + 1] == 0x2e
    &&& (i == 0 || p[i - 1] == 0x2f)
    &&& (i + 2 == p.len() || p[i + 2] == 0x2f)
}

/// Some component of the path is a parent-directory reference.
pub open spec fn path_escapes(p: Seq<u8>) -> bool {
    exists|i: int| dotdot_at(p, i)
}

/// Resolves a tool path against the workspace root: absolute paths are
/// rejected, as is any parent-directory component; what remains is joined
/// onto the root.  A resolved path is therefore always the root followed by
/// a separator and the relative path itself, and no component of it can
/// climb out of the root.
pub fn resolve_path(root: &str, raw: &str) -> (r: Result<String, String>)
    ensures
        match r {
            Ok(p) => !path_is_absolute(raw.spec_bytes()) && !path_escapes(raw.spec_bytes())
                && p@ == root@ + "/"@ + raw@,
            Err(e) => (path_is_absolute(raw.spec_bytes()) || path_escapes(raw.spec_bytes())) && (
            path_is_absolute(raw.spec_bytes()) ==> e@ == "absolute paths are not allowed"@) && (
            !path_is_absolute(raw.spec_bytes()) ==> e@ == "path escapes workspace root"@),
        },
{
    let bytes = raw.as_bytes();
    let n = bytes.len();
    if n > 0 && bytes[0] == 0x2f {
        return Err(String::from_str("absolute paths are not allowed"));
    }
    let mut i: usize = 0;
    while i < n
        invariant
            0 <= i <= n,
            n == raw.spec_bytes().len(),
            bytes@ == raw.spec_bytes(),
            !path_is_absolute(raw.spec_bytes()),
            forall|k: int| 0 <= k < i ==> !dotdot_at(raw.spec_bytes(), k),
        decreases n - i,
    {
        if n - i >= 2 && bytes[i] == 0x2e && bytes[i + 1] == 0x2e && (i == 0 || bytes[i - 1]
            == 0x2f) && (n - i == 2 || bytes[i + 2] == 0x2f) {
            proof {
                assert(dotdot_at(raw.spec_bytes(), i as int));
            }
            return Err(String::from_str("path escapes workspace root"));
        }
        proof {
            if dotdot_at(raw.spec_bytes(), i as int) {
                assert(false);
            }
        }
        i = i + 1;
    }
    proof {
        assert forall|k: int| !dotdot_at(raw.spec_bytes(), k) by {
            if dotdot_at(raw.spec_bytes(), k) {
                assert(0 <= k < n);
            }
        }
    }
    Ok(String::from_str(root).concat("/").concat(raw))
}

/// The path relative to the root: the root prefix and its separator
/// removed when present, and the path unchanged otherwise.
pub fn normalize_rel_path(root: &str, path: &str) -> (r: String)
    ensures
        (path@.len() > root@.len() && path@.subrange(0, root@.len() as int) == root@ && path@[
            root@.len() as int
        ] == '/') ==> r@ == path@.skip(root@.len() as int + 1),
        !(path@.len() > root@.len() && path@.subrange(0, root@.len() as int) == root@ && path@[
            root@.len() as int
        ] == '/') ==> r@ == path@,
{
    let rn = root.unicode_len();
    let pn = path.unicode_len();
    if pn > rn {
        let mut same = true;
        let mut i: usize = 0;
        while i < rn && same
            invariant
                0 <= i <= rn,
                rn == root@.len(),
                pn == path@.len(),
                rn < pn,
                same ==> forall|k: int| 0 <= k < i ==> root@[k] == path@[k],
                !same ==> path@.subrange(0, rn as int) != root@,
            decreases rn - i + (if same {
                1int
            } else {
                0int
            }),
        {
            if root.get_char(i) != path.get_char(i) {
                proof {
                    assert(path@.subrange(0, rn as int)[i as int] == path@[i as int]);
                }
                same = false;
            } else {
                i = i + 1;
            }
        }
        proof {
            if same {
                assert(path@.subrange(0, rn as int) =~= root@);
            }
        }
        if same && path.get_char(rn) == '/' {
            let tail = path.substring_char(rn + 1, pn);
            proof {
                assert(tail@ =~= path@.skip(rn as int + 1));
            }
            return String::from_str(tail);
        }
        return String::from_str(path);
    }
    String::from_str(path)
}

/// Copies a string slice.
fn clone_string_from(s: &str) -> (r: String)
    ensures
        r@ == s@,
{
    String::from_str(s)
}

/// The largest prefix length of `bytes`, at most `max`, that is valid
/// UTF-8; backing off byte by byte from `max` exactly as the sandbox
/// truncates.
pub fn utf8_prefix(bytes: &Vec<u8>, max: usize) -> (end: usize)
    requires
        max <= bytes@.len(),
    ensures
        end <= max,
        valid_utf8(bytes@.take(end as int)),
        forall|k: int| end < k <= max ==> !valid_utf8(bytes@.take(k)),
{
    let mut end = max;
    loop
        invariant
            0 <= end <= max <= bytes@.len(),
            forall|k: int| end < k <= max ==> !valid_utf8(bytes@.take(k)),
        ensures
            0 <= end <= max,
            valid_utf8(bytes@.take(end as int)),
            forall|k: int| end < k <= max ==> !valid_utf8(bytes@.take(k)),
        decreases end,
    {
        let mut prefix: Vec<u8> = Vec::new();
        let mut i: usize = 0;
        while i < end
            invariant
                0 <= i <= end <= bytes@.len(),
                prefix@ =~= bytes@.take(i as int),
            decreases end - i,
        {
            prefix.push(bytes[i]);
            proof {
                assert(bytes@.take(i + 1) =~= bytes@.take(i as int).push(bytes@[i as int]));
            }
            i = i + 1;
        }
        proof {
            assert(prefix@ =~= bytes@.take(end as int));
        }
        if utf8_check(&prefix) {
            break ;
        }
        proof {
            if end == 0 {
                assert(bytes@.take(0) =~= Seq::<u8>::empty());
                assert(valid_utf8(bytes@.take(0)));
                assert(false);
            }
        }
        end = end - 1;
    }
    end
}

/// Truncates content to at most `max` bytes on a UTF-8 boundary: within
/// budget the content is decoded whole; over budget the longest valid
/// prefix within the budget is taken, and the result is marked truncated.
pub fn truncate_utf8(bytes: &Vec<u8>, max: usize) -> (r: (String, bool, usize))
    ensures
        bytes@.len() <= max ==> !r.1 && r.2 == bytes@.len() && (valid_utf8(bytes@) ==> r.0@
            == decode_utf8(bytes@)),
        bytes@.len() > max ==> r.1 && r.2 <= max && valid_utf8(bytes@.take(r.2 as int)) && r.0@
            == decode_utf8(bytes@.take(r.2 as int)) && (forall|k: int|
            r.2 < k <= max ==> !valid_utf8(bytes@.take(k))),
{
    if bytes.len() <= max {
        let s = bytes_to_string_lossy(bytes);
        return (s, false, bytes.len());
    }
    let end = utf8_prefix(bytes, max);
    let mut prefix: Vec<u8> = Vec::new();
    let mut i: usize = 0;
    while i < end
        invariant
            0 <= i <= end <= bytes@.len(),
            prefix@ =~= bytes@.take(i as int),
        decreases end - i,
    {
        prefix.push(bytes[i]);
        proof {
            assert(bytes@.take(i + 1) =~= bytes@.take(i as int).push(bytes@[i as int]));
        }
        i = i + 1;
    }
    proof {
        assert(prefix@ =~= bytes@.take(end as int));
    }
    let s = bytes_to_string_lossy(&prefix);
    (s, true, end)
}

/// A content slice truncated under a budget smaller than its first
/// codepoint comes out strictly shorter than the budget and still valid:
/// truncation never cuts a codepoint in half.
pub proof fn lemma_truncate_on_boundary(bytes: Seq<u8>, max: int, end: int)
    requires
        0 <= end <= max <= bytes.len(),
        valid_utf8(bytes.take(end)),
        forall|k: int| end < k <= max ==> !valid_utf8(bytes.take(k)),
        !valid_utf8(bytes.take(max)),
        max <= bytes.len(),
    ensures
        end < max,
        valid_utf8(bytes.take(end)),
{
    if end == max {
        assert(valid_utf8(bytes.take(max)));
    }
}

/// The lines of a character sequence: split on newlines, one trailing
/// newline forgiven, every line stripped of trailing carriage returns.
pub open spec fn split_lines_model(cs: Seq<char>) -> Seq<Seq<char>> {
    let body = if cs.len() > 0 && cs.last() == '\n' {
        cs.drop_last()
    } else {
        cs
    };
    if body.len() == 0 && cs.len() <= 1 {
        Seq::empty()
    } else {
        segments(body)
    }
}

/// The newline-separated segments, each stripped of trailing carriage
/// returns.
pub open spec fn segments(cs: Seq<char>) -> Seq<Seq<char>>
    decreases cs.len(),
{
    if !cs.contains('\n') {
        seq![trim_cr(cs)]
    } else {
        let i = first_nl(cs, 0);
        proof {
            lemma_first_nl_found(cs, 0);
            assert(cs.skip(i + 1).len() < cs.len());
        }
        seq![trim_cr(cs.take(i))] + segments(cs.skip(i + 1))
    }
}

/// When a newline stands at or after `i`, `first_nl` finds one.
pub proof fn lemma_first_nl_found(cs: Seq<char>, i: int)
    requires
        0 <= i <= cs.len(),
        exists|k: int| i <= k < cs.len() && cs[k] == '\n',
    ensures
        i <= first_nl(cs, i) < cs.len(),
        cs[first_nl(cs, i)] == '\n',
    decreases cs.len() - i,
{
    if cs[i] == '\n' {
    } else {
        let k = choose|k: int| i <= k < cs.len() && cs[k] == '\n';
        assert(k > i);
        lemma_first_nl_found(cs, i + 1);
    }
}

/// The first newline position at or after `i`.
pub open spec fn first_nl(cs: Seq<char>, i: int) -> int
    decreases cs.len() - i,
    when 0 <= i <= cs.len()
{
    if i < cs.len() && cs[i] == '\n' {
        i
    } else if i < cs.len() {
        first_nl(cs, i + 1)
    } else {
        i
    }
}

/// The sequence without its trailing carriage returns.
pub open spec fn trim_cr(cs: Seq<char>) -> Seq<char>
    decreases cs.len(),
{
    if cs.len() > 0 && cs.last() == '\r' {
        trim_cr(cs.drop_last())
    } else {
        cs
    }
}

/// Splits truncated process output into lines: the bytes are truncated to
/// the budget on a UTF-8 boundary, then split on newlines with carriage
/// returns stripped.
pub fn split_output(bytes: &Vec<u8>, max_bytes: usize) -> (out: Vec<String>)
    ensures
        bytes@.len() <= max_bytes && valid_utf8(bytes@) ==> {
            let lines = split_lines_model(decode_utf8(bytes@));
            out@.len() == lines.len() && (forall|k: int|
                0 <= k < out@.len() ==> #[trigger] out@[k]@ == lines[k])
        },
{
    let (text, _truncated, _used) = truncate_utf8(bytes, if max_bytes <= bytes.len() {
        max_bytes
    } else {
        bytes.len()
    });
    split_string_lines(&text)
}

/// Splits a string into lines, stripping trailing carriage returns.
fn split_string_lines(text: &String) -> (out: Vec<String>)
    ensures
        out@.len() == split_lines_model(text@).len(),
        forall|k: int|
            0 <= k < out@.len() ==> #[trigger] out@[k]@ == split_lines_model(text@)[k],
{
    let ghost cs = text@;
    let n = text.as_str().unicode_len();
    if n == 0 {
        proof {
            assert(split_lines_model(cs) =~= Seq::<Seq<char>>::empty());
        }
        return Vec::new();
    }
    let body_end = if text.as_str().get_char(n - 1) == '\n' {
        n - 1
    } else {
        n
    };
    if body_end == 0 {
        proof {
            assert(cs.last() == '\n' && cs.len() == 1);
            assert(cs.drop_last().len() == 0);
            assert(split_lines_model(cs) =~= Seq::<Seq<char>>::empty());
        }
        return Vec::new();
    }
    proof {
        if cs.len() > 0 && cs.last() == '\n' {
            assert(cs.drop_last() =~= cs.subrange(0, body_end as int));
        } else {
            assert(cs =~= cs.subrange(0, body_end as int));
        }
    }
    segments_exec(text.as_str(), 0, body_end)
}

/// The lines of `text[start..end]`, mirroring [`segments`].
fn segments_exec(text: &str, start: usize, end: usize) -> (out: Vec<String>)
    requires
        start <= end <= text@.len(),
    ensures
        out@.len() == segments(text@.subrange(start as int, end as int)).len(),
        forall|k: int|
            0 <= k < out@.len() ==> #[trigger] out@[k]@ == segments(
                text@.subrange(start as int, end as int),
            )[k],
    decreases end - start,
{
    let ghost cs = text@;
    let ghost piece = cs.subrange(start as int, end as int);
    let mut i = start;
    while i < end && text.get_char(i) != '\n'
        invariant
            start <= i <= end <= cs.len(),
            cs == text@,
            forall|k: int| start <= k < i ==> cs[k] != '\n',
        decreases end - i,
    {
        i = i + 1;
    }
    if i == end {
        proof {
            assert forall|k: int| 0 <= k < piece.len() implies piece[k] != '\n' by {
                assert(piece[k] == cs[start + k]);
            }
            assert(!piece.contains('\n'));
        }
        let line = trim_cr_exec(text, start, end);
        let mut out: Vec<String> = Vec::new();
        out.push(line);
        proof {
            assert(segments(piece) =~= seq![trim_cr(piece)]);
        }
        out
    } else {
        proof {
            assert(cs[i as int] == '\n');
            assert(piece[i - start] == '\n');
            assert(piece.contains('\n'));
            assert(first_nl(piece, 0) == i - start) by {
                lemma_first_nl(piece, 0, i - start);
            }
        }
        let line = trim_cr_exec(text, start, i);
        let ghost line_view = line@;
        let rest = segments_exec(text, i + 1, end);
        let mut out: Vec<String> = Vec::new();
        out.push(line);
        let m = rest.len();
        let mut k: usize = 0;
        while k < m
            invariant
                0 <= k <= m,
                m == rest@.len(),
                out@.len() == 1 + k,
                out@[0]@ == line_view,
                forall|j: int| 1 <= j < out@.len() ==> #[trigger] out@[j]@ == rest@[j - 1]@,
            decreases m - k,
        {
            out.push(crate::json::clone_string(&rest[k]));
            k = k + 1;
        }
        proof {
            let head = trim_cr(piece.take(i - start));
            let tail_piece = piece.skip(i - start + 1);
            assert(segments(piece) =~= seq![head] + segments(tail_piece));
            assert(piece.take(i - start) =~= cs.subrange(start as int, i as int));
            assert(tail_piece =~= cs.subrange(i + 1, end as int));
            assert(line_view == trim_cr(cs.subrange(start as int, i as int)));
            assert forall|j: int| 0 <= j < out@.len() implies #[trigger] out@[j]@ == segments(
                piece,
            )[j] by {
                if j == 0 {
                    assert(out@[0]@ == line_view);
                } else {
                    assert(out@[j]@ == rest@[j - 1]@);
                    assert(segments(piece)[j] == segments(tail_piece)[j - 1]);
                }
            }
        }
        out
    }
}

/// A position where the first newline of a newline-free prefix stands is
/// the first newline.
proof fn lemma_first_nl(cs: Seq<char>, i: int, at: int)
    requires
        0 <= i <= at < cs.len(),
        cs[at] == '\n',
        forall|k: int| i <= k < at ==> cs[k] != '\n',
    ensures
        first_nl(cs, i) == at,
    decreases at - i,
{
    if i < at {
        lemma_first_nl(cs, i + 1, at);
    }
}

/// The slice `text[start..stop]` without its trailing carriage returns.
fn trim_cr_exec(text: &str, start: usize, stop: usize) -> (r: String)
    requires
        start <= stop <= text@.len(),
    ensures
        r@ == trim_cr(text@.subrange(start as int, stop as int)),
{
    let mut hi = stop;
    while hi > start && text.get_char(hi - 1) == '\r'
        invariant
            start <= hi <= stop <= text@.len(),
            trim_cr(text@.subrange(start as int, stop as int)) == trim_cr(
                text@.subrange(start as int, hi as int),
            ),
        decreases hi,
    {
        proof {
            assert(text@.subrange(start as int, hi as int).last() == '\r');
            assert(text@.subrange(start as int, hi as int).drop_last() =~= text@.subrange(
                start as int,
                hi - 1,
            ));
        }
        hi = hi - 1;
    }
    proof {
        let cur = text@.subrange(start as int, hi as int);
        if cur.len() > 0 {
            assert(cur.last() == text@[hi - 1]);
        }
        assert(trim_cr(cur) == cur);
    }
    let r = text.substring_char(start, hi);
    String::from_str(r)
}


/// The first newline position in the bytes at or after `i`, or the length.
pub open spec fn nl_scan(s: Seq<u8>, i: int) -> int
    decreases s.len() - i,
    when 0 <= i <= s.len()
{
    if i < s.len() && s[i] != 0x0a {
        nl_scan(s, i + 1)
    } else {
        i
    }
}

/// `nl_scan` stays within the input.
pub proof fn lemma_nl_scan(s: Seq<u8>, i: int)
    requires
        0 <= i <= s.len(),
    ensures
        i <= nl_scan(s, i) <= s.len(),
    decreases s.len() - i,
{
    if i < s.len() && s[i] != 0x0a {
        lemma_nl_scan(s, i + 1);
    }
}

/// Scans to the next newline.
fn nl_scan_exec(s: &Vec<u8>, i: usize) -> (r: usize)
    requires
        i <= s@.len(),
    ensures
        r == nl_scan(s@, i as int),
        i <= r <= s@.len(),
{
    let n = s.len();
    let mut k = i;
    while k < n && s[k] != 0x0a
        invariant
            i <= k <= n,
            n == s@.len(),
            nl_scan(s@, i as int) == nl_scan(s@, k as int),
        decreases n - k,
    {
        k = k + 1;
    }
    proof {
        lemma_nl_scan(s@, k as int);
    }
    k
}

/// The byte offset where the 1-based line starts; past the last line it is
/// the content's length.
pub open spec fn line_start(s: Seq<u8>, ln: int) -> int
    decreases ln,
{
    if ln <= 1 {
        0
    } else {
        let prev = line_start(s, ln - 1);
        if 0 <= prev <= s.len() {
            let p = nl_scan(s, prev);
            if p < s.len() {
                p + 1
            } else {
                s.len() as int
            }
        } else {
            s.len() as int
        }
    }
}

/// Line starts stay within the content.
pub proof fn lemma_line_start(s: Seq<u8>, ln: int)
    ensures
        0 <= line_start(s, ln) <= s.len(),
    decreases ln,
{
    if ln > 1 {
        lemma_line_start(s, ln - 1);
        lemma_nl_scan(s, line_start(s, ln - 1));
    }
}

/// Scanning forward never goes backwards.
proof fn lemma_nl_scan_ge(s: Seq<u8>, i: int)
    requires
        0 <= i <= s.len(),
    ensures
        nl_scan(s, i) >= i,
{
    lemma_nl_scan(s, i);
}

/// A line's start is past the starts of all earlier lines, until it
/// saturates at the content's end.
pub proof fn lemma_line_start_lb(s: Seq<u8>, ln: int)
    requires
        ln >= 1,
    ensures
        line_start(s, ln) >= (if ln - 1 <= s.len() {
            ln - 1
        } else {
            s.len() as int
        }),
    decreases ln,
{
    if ln > 1 {
        lemma_line_start_lb(s, ln - 1);
        lemma_line_start(s, ln - 1);
        lemma_nl_scan_ge(s, line_start(s, ln - 1));
    }
}

/// Finds the byte offset of a 1-based line.
fn line_start_exec(s: &Vec<u8>, ln: usize) -> (r: usize)
    requires
        ln >= 1,
    ensures
        r == line_start(s@, ln as int),
        r <= s@.len(),
{
    let mut cur: usize = 0;
    let mut line: usize = 1;
    while line < ln
        invariant
            1 <= line <= ln,
            0 <= cur <= s@.len(),
            cur == line_start(s@, line as int),
        decreases ln - line,
    {
        let p = nl_scan_exec(s, cur);
        if p < s.len() {
            cur = p + 1;
        } else {
            cur = s.len();
        }
        line = line + 1;
        proof {
            assert(cur == line_start(s@, line as int));
        }
    }
    cur
}

/// What a read invocation asks for, once its arguments are accepted: the
/// resolved path, the path relative to the root, the line range, and the
/// byte budget.
#[derive(Debug)]
pub struct ReadPlan {
    pub path: String,
    pub rel: String,
    pub start_line: Option<usize>,
    pub end_line: Option<usize>,
    pub max_bytes: usize,
}

/// An optional non-negative integer argument that fits the platform.
pub open spec fn opt_nat_arg(v: JsonV, key: Seq<char>) -> bool {
    match obj_get(v, key) {
        Option::None => true,
        Some(JsonV::Int(x)) => 0 <= x <= usize::MAX,
        Some(_) => false,
    }
}

/// The read arguments are acceptable: a string path that stays inside the
/// workspace, optional 1-based line bounds in order, and an optional byte
/// budget.
pub open spec fn read_args_ok(v: JsonV) -> bool {
    &&& obj_get(v, "path"@) matches Some(JsonV::Str(p)) && !path_is_absolute(
        vstd::utf8::encode_utf8(p),
    ) && !path_escapes(vstd::utf8::encode_utf8(p))
    &&& opt_nat_arg(v, "start_line"@)
    &&& opt_nat_arg(v, "end_line"@)
    &&& opt_nat_arg(v, "max_bytes"@)
    &&& (obj_get(v, "start_line"@) matches Some(JsonV::Int(x)) ==> x != 0)
    &&& (obj_get(v, "end_line"@) matches Some(JsonV::Int(x)) ==> x != 0)
    &&& match (obj_get(v, "start_line"@), obj_get(v, "end_line"@)) {
        (Some(JsonV::Int(a)), Some(JsonV::Int(b))) => a <= b,
        _ => true,
    }
}

/// Reads an optional non-negative integer argument.
fn take_opt_nat(v: &Json, key: &str) -> (r: Result<Option<usize>, ()>)
    ensures
        r is Ok <==> opt_nat_arg(v@, key@),
        match r {
            Ok(Some(x)) => obj_get(v@, key@) == Some(JsonV::Int(x as int)),
            Ok(Option::None) => obj_get(v@, key@) is None,
            Err(()) => true,
        },
{
    match v.get(key) {
        Some(f) => match f {
            Json::Int(x) => {
                if *x >= 0 && *x as u64 <= usize::MAX as u64 {
                    Ok(Some(*x as usize))
                } else {
                    Err(())
                }
            },
            _ => Err(()),
        },
        None => Ok(None),
    }
}

/// Checks the read arguments and resolves the path: zero line numbers and
/// reversed ranges are invalid arguments (exit code 2); a path that leaves
/// the workspace is a policy failure (exit code 1).
pub fn plan_read(args: &Json, config: &BuiltinToolConfig) -> (r: Result<ReadPlan, ToolOutput>)
    ensures
        r is Ok <==> read_args_ok(args@),
        match r {
            Ok(plan) => {
                &&& (obj_get(args@, "path"@) matches Some(JsonV::Str(p)) && plan.path@
                    == config.workspace_root@ + "/"@ + p)
                &&& (match obj_get(args@, "start_line"@) {
                    Some(JsonV::Int(x)) => plan.start_line == Some(x as usize),
                    _ => plan.start_line is None,
                })
                &&& (match obj_get(args@, "end_line"@) {
                    Some(JsonV::Int(x)) => plan.end_line == Some(x as usize),
                    _ => plan.end_line is None,
                })
                &&& (match obj_get(args@, "max_bytes"@) {
                    Some(JsonV::Int(x)) => plan.max_bytes == x as usize,
                    _ => plan.max_bytes == config.max_bytes,
                })
            },
            Err(out) => {
                &&& out.stderr@.len() == 0
                &&& out.artifacts is None
                &&& out.stdout@.len() == 1
                &&& {
                    let v = args@;
                    if !(obj_get(v, "path"@) matches Some(JsonV::Str(_))) {
                        out.exit_code == 2 && out.stdout@[0]@ == "invalid args: path"@
                    } else if !opt_nat_arg(v, "start_line"@) {
                        out.exit_code == 2 && out.stdout@[0]@ == "invalid args: start_line"@
                    } else if !opt_nat_arg(v, "end_line"@) {
                        out.exit_code == 2 && out.stdout@[0]@ == "invalid args: end_line"@
                    } else if !opt_nat_arg(v, "max_bytes"@) {
                        out.exit_code == 2 && out.stdout@[0]@ == "invalid args: max_bytes"@
                    } else if obj_get(v, "start_line"@) == Some(JsonV::Int(0)) || obj_get(
                        v,
                        "end_line"@,
                    ) == Some(JsonV::Int(0)) {
                        out.exit_code == 2 && out.stdout@[0]@ == "line numbers are 1-based"@
                    } else if (match (obj_get(v, "start_line"@), obj_get(v, "end_line"@)) {
                        (Some(JsonV::Int(sl)), Some(JsonV::Int(el))) => sl > el,
                        _ => false,
                    }) {
                        out.exit_code == 2 && out.stdout@[0]@
                            == "start_line must be <= end_line"@
                    } else {
                        &&& out.exit_code == 1
                        &&& (obj_get(v, "path"@) matches Some(JsonV::Str(p))
                            && (path_is_absolute(vstd::utf8::encode_utf8(p)) ==> out.stdout@[0]@
                            == "absolute paths are not allowed"@) && (!path_is_absolute(
                            vstd::utf8::encode_utf8(p),
                        ) ==> out.stdout@[0]@ == "path escapes workspace root"@))
                    }
                }
            },
        },
{
    let path_str = match args.get("path") {
        Some(f) => match f.as_str() {
            Some(s) => clone_string(s),
            None => {
                return Err(ToolOutput::invalid_args(String::from_str("invalid args: path")));
            },
        },
        None => {
            return Err(ToolOutput::invalid_args(String::from_str("invalid args: path")));
        },
    };
    let start_line = match take_opt_nat(args, "start_line") {
        Ok(x) => x,
        Err(()) => {
            return Err(
                ToolOutput::invalid_args(String::from_str("invalid args: start_line")),
            );
        },
    };
    let end_line = match take_opt_nat(args, "end_line") {
        Ok(x) => x,
        Err(()) => {
            return Err(ToolOutput::invalid_args(String::from_str("invalid args: end_line")));
        },
    };
    let max_bytes_arg = match take_opt_nat(args, "max_bytes") {
        Ok(x) => x,
        Err(()) => {
            return Err(ToolOutput::invalid_args(String::from_str("invalid args: max_bytes")));
        },
    };
    if let Some(s) = start_line {
        if s == 0 {
            return Err(
                ToolOutput::invalid_args(String::from_str("line numbers are 1-based")),
            );
        }
    }
    if let Some(e) = end_line {
        if e == 0 {
            return Err(
                ToolOutput::invalid_args(String::from_str("line numbers are 1-based")),
            );
        }
    }
    if let Some(s) = start_line {
        if let Some(e) = end_line {
            if s > e {
                return Err(
                    ToolOutput::invalid_args(
                        String::from_str("start_line must be <= end_line"),
                    ),
                );
            }
        }
    }
    let path = match resolve_path(config.workspace_root.as_str(), path_str.as_str()) {
        Ok(p) => p,
        Err(msg) => {
            let mut msgs: Vec<String> = Vec::new();
            msgs.push(msg);
            return Err(ToolOutput::failure(msgs));
        },
    };
    let rel = clone_string(&path_str);
    let max_bytes = match max_bytes_arg {
        Some(m) => m,
        None => config.max_bytes,
    };
    Ok(ReadPlan { path, rel, start_line, end_line, max_bytes })
}

/// Selects the requested lines from the content, caps them at the byte
/// budget on a UTF-8 boundary, and reports the slice with its artifacts.
/// The byte window the requested line range selects.
pub open spec fn read_window(
    content: Seq<u8>,
    start_line: Option<usize>,
    end_line: Option<usize>,
) -> Seq<u8> {
    let a = line_start(
        content,
        match start_line {
            Some(s) => s as int,
            Option::None => 1,
        },
    );
    let b = match end_line {
        Some(e) => line_start(content, e + 1),
        Option::None => content.len() as int,
    };
    if a <= b {
        content.subrange(a, b)
    } else {
        Seq::<u8>::empty()
    }
}

/// A number clamped to the wire format's signed 64-bit range.
pub open spec fn clamp_wire(x: int) -> int {
    if x <= i64::MAX {
        x
    } else {
        i64::MAX as int
    }
}

/// An optional line bound as it appears in the artifacts: the number, or
/// null when absent.
pub open spec fn opt_line_json(o: Option<usize>) -> JsonV {
    match o {
        Some(x) => JsonV::Int(clamp_wire(x as int)),
        Option::None => JsonV::Null,
    }
}

/// The artifact object of a completed read: the path, the bytes returned,
/// whether the slice was truncated, and the requested line bounds.
pub open spec fn read_artifacts(
    rel: Seq<char>,
    bytes: int,
    truncated: bool,
    start_line: Option<usize>,
    end_line: Option<usize>,
) -> JsonV {
    JsonV::Obj(
        seq![
            ("path"@, JsonV::Str(rel)),
            ("bytes"@, JsonV::Int(clamp_wire(bytes))),
            ("truncated"@, JsonV::Bool(truncated)),
            ("start_line"@, opt_line_json(start_line)),
            ("end_line"@, opt_line_json(end_line)),
        ],
    )
}

/// Selects the requested lines from the content, caps them at the byte
/// budget on a UTF-8 boundary, and reports the slice with its artifacts.
/// A selected window that is not valid UTF-8 is an operational failure.
#[verifier::rlimit(100)]
pub fn read_select(content: &Vec<u8>, plan: &ReadPlan) -> (r: ToolOutput)
    requires
        plan.start_line matches Some(s) ==> s >= 1,
    ensures
        ({
            let gather = read_window(content@, plan.start_line, plan.end_line);
            &&& (!valid_utf8(gather) ==> {
                &&& r.exit_code == 1
                &&& r.stderr@.len() == 0
                &&& r.artifacts is None
                &&& r.stdout@.len() == 1
                &&& r.stdout@[0]@ == "read failed: content is not valid UTF-8"@
            })
            &&& (valid_utf8(gather) ==> {
                &&& r.exit_code == 0
                &&& r.stderr@.len() == 0
                &&& r.stdout@.len() == 1
                &&& (gather.len() <= plan.max_bytes ==> r.stdout@[0]@ == decode_utf8(gather)
                    && (r.artifacts matches Some(a) && a@ == read_artifacts(
                    plan.rel@,
                    gather.len() as int,
                    false,
                    plan.start_line,
                    plan.end_line,
                )))
                &&& (gather.len() > plan.max_bytes ==> (exists|end: int|
                    0 <= end <= plan.max_bytes && valid_utf8(gather.take(end)) && (forall|
                        k: int,
                    |
                        end < k <= plan.max_bytes ==> !valid_utf8(#[trigger] gather.take(k)))
                        && r.stdout@[0]@ == decode_utf8(gather.take(end)) && (r.artifacts
                        matches Some(a) && a@ == read_artifacts(
                        plan.rel@,
                        end,
                        true,
                        plan.start_line,
                        plan.end_line,
                    ))))
            })
        }),
{
    let start = match plan.start_line {
        Some(s) => s,
        None => 1,
    };
    let a = line_start_exec(content, start);
    let b = match plan.end_line {
        Some(e) => {
            if e >= content.len() {
                proof {
                    lemma_line_start_lb(content@, e + 1);
                    lemma_line_start(content@, e + 1);
                }
                content.len()
            } else {
                line_start_exec(content, e + 1)
            }
        },
        None => content.len(),
    };
    proof {
        match plan.end_line {
            Some(e) => {
                assert(b == line_start(content@, e + 1));
            },
            Option::None => {},
        }
    }
    let mut gather: Vec<u8> = Vec::new();
    let mut k = a;
    if a <= b {
        while k < b
            invariant
                a <= k <= b <= content@.len(),
                gather@ =~= content@.subrange(a as int, k as int),
            decreases b - k,
        {
            gather.push(content[k]);
            proof {
                assert(content@.subrange(a as int, k + 1) =~= content@.subrange(
                    a as int,
                    k as int,
                ).push(content@[k as int]));
            }
            k = k + 1;
        }
    }
    proof {
        if a <= b {
            assert(gather@ =~= content@.subrange(a as int, b as int));
        } else {
            assert(gather@ =~= Seq::<u8>::empty());
        }
        assert(gather@ == read_window(content@, plan.start_line, plan.end_line));
    }
    if !utf8_check(&gather) {
        let mut msgs: Vec<String> = Vec::new();
        msgs.push(String::from_str("read failed: content is not valid UTF-8"));
        return ToolOutput::failure(msgs);
    }
    let (text, truncated, used) = truncate_utf8(&gather, if plan.max_bytes <= gather.len() {
        plan.max_bytes
    } else {
        gather.len()
    });
    let mut stdout: Vec<String> = Vec::new();
    stdout.push(text);
    let mut fields: Vec<(String, Json)> = Vec::new();
    fields.push((String::from_str("path"), Json::Str(clone_string(&plan.rel))));
    fields.push((String::from_str("bytes"), Json::Int(if used as u64 <= i64::MAX as u64 {
        used as i64
    } else {
        i64::MAX
    })));
    fields.push((String::from_str("truncated"), Json::Bool(truncated)));
    fields.push((String::from_str("start_line"), match plan.start_line {
        Some(s) => Json::Int(if s as u64 <= i64::MAX as u64 {
            s as i64
        } else {
            i64::MAX
        }),
        None => Json::Null,
    }));
    fields.push((String::from_str("end_line"), match plan.end_line {
        Some(e) => Json::Int(if e as u64 <= i64::MAX as u64 {
            e as i64
        } else {
            i64::MAX
        }),
        None => Json::Null,
    }));
    let artifacts = Json::Obj(fields);
    proof {
        crate::json::lemma_json_fields_view(fields@);
        assert(crate::json::json_fields_view(fields@) =~= seq![
            ("path"@, JsonV::Str(plan.rel@)),
            ("bytes"@, JsonV::Int(clamp_wire(used as int))),
            ("truncated"@, JsonV::Bool(truncated)),
            ("start_line"@, opt_line_json(plan.start_line)),
            ("end_line"@, opt_line_json(plan.end_line)),
        ]);
        assert(artifacts@ == read_artifacts(
            plan.rel@,
            used as int,
            truncated,
            plan.start_line,
            plan.end_line,
        ));
    }
    ToolOutput { stdout, stderr: Vec::new(), exit_code: 0, artifacts: Some(artifacts) }
}

/// What a regular-expression match decides, as a function of the pattern,
/// the literal and case flags, and the line; absent when the pattern does
/// not compile.
pub uninterp spec fn regex_decision(
    pattern: Seq<char>,
    literal: bool,
    case_insensitive: bool,
    line: Seq<char>,
) -> Option<bool>;

/// Relies on regex::RegexBuilder, and regex::escape in literal mode: the
/// same pattern and haystack always decide the same way, and an invalid
/// pattern fails to build whatever the haystack.
#[verifier::external_body]
fn regex_match(pattern: &str, literal: bool, case_insensitive: bool, line: &str) -> (r: Result<
    bool,
    String,
>)
    ensures
        r matches Ok(b) ==> regex_decision(pattern@, literal, case_insensitive, line@) == Some(b),
        r is Err ==> regex_decision(pattern@, literal, case_insensitive, line@) is None,
{
    let p = if literal {
        regex::escape(pattern)
    } else {
        pattern.to_string()
    };
    match regex::RegexBuilder::new(&p).case_insensitive(case_insensitive).build() {
        Ok(re) => Ok(re.is_match(line)),
        Err(err) => Err(format!("invalid regex: {err}")),
    }
}

/// Probes whether the pattern compiles, reporting the builder's message.
pub fn regex_check(pattern: &str, literal: bool, case_insensitive: bool) -> (r: Result<
    (),
    String,
>)
    ensures
        r is Ok <==> regex_decision(pattern@, literal, case_insensitive, Seq::<char>::empty())
            is Some,
{
    proof {
        reveal_strlit("");
        assert(""@ =~= Seq::<char>::empty());
    }
    match regex_match(pattern, literal, case_insensitive, "") {
        Ok(_) => Ok(()),
        Err(e) => Err(e),
    }
}

/// What a glob set built with a literal separator decides, as a function of
/// the patterns and the path; absent when some pattern does not compile.
pub uninterp spec fn glob_decision(patterns: Seq<Seq<char>>, path: Seq<char>) -> Option<bool>;

/// Relies on globset::GlobSetBuilder with literal_separator(true): the same
/// patterns and path always decide the same way, and an invalid pattern
/// fails to build whatever the path.
#[verifier::external_body]
fn glob_match(patterns: &Vec<String>, path: &str) -> (r: Result<bool, String>)
    ensures
        r matches Ok(b) ==> glob_decision(patterns.deep_view(), path@) == Some(b),
        r is Err ==> glob_decision(patterns.deep_view(), path@) is None,
{
    let mut builder = globset::GlobSetBuilder::new();
    for p in patterns {
        let glob = globset::GlobBuilder::new(p).literal_separator(true).build().map_err(
            |err| format!("invalid glob '{p}': {err}"),
        )?;
        builder.add(glob);
    }
    let set = builder.build().map_err(|err| format!("invalid glob set: {err}"))?;
    Ok(set.is_match(path))
}

/// Probes whether every pattern compiles, reporting the builder's message.
pub fn globs_check(patterns: &Option<Vec<String>>) -> (r: Result<(), String>)
    ensures
        match patterns {
            Some(ps) => r is Ok <==> glob_decision(ps.deep_view(), Seq::<char>::empty())
                is Some,
            Option::None => r is Ok,
        },
{
    match patterns {
        Some(ps) => {
            proof {
                reveal_strlit("");
                assert(""@ =~= Seq::<char>::empty());
            }
            match glob_match(ps, "") {
                Ok(_) => Ok(()),
                Err(e) => Err(e),
            }
        },
        None => Ok(()),
    }
}

/// An entry passes the keep and drop globs: it matches the keep_globs
/// set when one is given, and not the drop_globs set when one is given.  A set
/// that does not compile matches nothing.
pub open spec fn globs_pass(
    keep_globs: Option<Seq<Seq<char>>>,
    drop_globs: Option<Seq<Seq<char>>>,
    path: Seq<char>,
) -> bool {
    &&& match keep_globs {
        Some(ps) => glob_decision(ps, path) == Some(true),
        Option::None => true,
    }
    &&& match drop_globs {
        Some(ps) => glob_decision(ps, path) != Some(true),
        Option::None => true,
    }
}

/// Decides the keep and drop globs for one path.
pub fn globsets_match(
    keep_globs: &Option<Vec<String>>,
    drop_globs: &Option<Vec<String>>,
    path: &str,
) -> (r: bool)
    ensures
        r == globs_pass(
            match keep_globs {
                Some(ps) => Some(ps.deep_view()),
                Option::None => Option::None,
            },
            match drop_globs {
                Some(ps) => Some(ps.deep_view()),
                Option::None => Option::None,
            },
            path@,
        ),
{
    let inc_ok = match keep_globs {
        Some(ps) => match glob_match(ps, path) {
            Ok(b) => b,
            Err(_) => false,
        },
        None => true,
    };
    let exc_hit = match drop_globs {
        Some(ps) => match glob_match(ps, path) {
            Ok(b) => b,
            Err(_) => false,
        },
        None => false,
    };
    inc_ok && !exc_hit
}

/// The entries that pass the globs, in order.
pub open spec fn passing_entries(
    entries: Seq<Seq<char>>,
    keep_globs: Option<Seq<Seq<char>>>,
    drop_globs: Option<Seq<Seq<char>>>,
) -> Seq<Seq<char>>
    decreases entries.len(),
{
    if entries.len() == 0 {
        Seq::empty()
    } else {
        let init = passing_entries(entries.drop_last(), keep_globs, drop_globs);
        if globs_pass(keep_globs, drop_globs, entries.last()) {
            init.push(entries.last())
        } else {
            init
        }
    }
}

/// Filters walked entries by the keep and drop globs, keeping their
/// order.
pub fn filter_entries(
    entries: &Vec<String>,
    keep_globs: &Option<Vec<String>>,
    drop_globs: &Option<Vec<String>>,
) -> (out: Vec<String>)
    ensures
        ({
            let inc = match keep_globs {
                Some(ps) => Some(ps.deep_view()),
                Option::None => Option::<Seq<Seq<char>>>::None,
            };
            let exc = match drop_globs {
                Some(ps) => Some(ps.deep_view()),
                Option::None => Option::<Seq<Seq<char>>>::None,
            };
            &&& out@.len() == passing_entries(entries.deep_view(), inc, exc).len()
            &&& forall|k: int|
                0 <= k < out@.len() ==> #[trigger] out@[k]@ == passing_entries(
                    entries.deep_view(),
                    inc,
                    exc,
                )[k]
        }),
{
    let ghost inc = match keep_globs {
        Some(ps) => Some(ps.deep_view()),
        Option::None => Option::<Seq<Seq<char>>>::None,
    };
    let ghost exc = match drop_globs {
        Some(ps) => Some(ps.deep_view()),
        Option::None => Option::<Seq<Seq<char>>>::None,
    };
    let n = entries.len();
    let mut out: Vec<String> = Vec::new();
    let mut i: usize = 0;
    proof {
        assert(entries.deep_view().take(0) =~= Seq::<Seq<char>>::empty());
    }
    while i < n
        invariant
            0 <= i <= n,
            n == entries@.len(),
            inc == (match keep_globs {
                Some(ps) => Some(ps.deep_view()),
                Option::None => Option::<Seq<Seq<char>>>::None,
            }),
            exc == (match drop_globs {
                Some(ps) => Some(ps.deep_view()),
                Option::None => Option::<Seq<Seq<char>>>::None,
            }),
            out@.len() == passing_entries(entries.deep_view().take(i as int), inc, exc).len(),
            forall|k: int|
                0 <= k < out@.len() ==> #[trigger] out@[k]@ == passing_entries(
                    entries.deep_view().take(i as int),
                    inc,
                    exc,
                )[k],
        decreases n - i,
    {
        proof {
            assert(entries.deep_view().len() == entries@.len());
            assert(entries.deep_view().take(i + 1).drop_last() =~= entries.deep_view().take(
                i as int,
            ));
            assert(entries.deep_view().take(i + 1).last() == entries.deep_view()[i as int]);
            assert(entries.deep_view()[i as int] == entries@[i as int]@);
        }
        if globsets_match(keep_globs, drop_globs, entries[i].as_str()) {
            out.push(clone_string(&entries[i]));
        }
        i = i + 1;
    }
    proof {
        assert(entries.deep_view().take(n as int) =~= entries.deep_view());
    }
    out
}

/// The bytes without trailing carriage returns and newlines.
pub open spec fn trim_crlf_bytes(s: Seq<u8>) -> Seq<u8>
    decreases s.len(),
{
    if s.len() > 0 && (s.last() == 0x0d || s.last() == 0x0a) {
        trim_crlf_bytes(s.drop_last())
    } else {
        s
    }
}

/// The matching lines of NUL-free content, scanned from `pos`: the line
/// number and trimmed bytes of every line the pattern matches, stopping at
/// the byte budget, at the first line that does not decode, and after
/// `left` matches.
pub open spec fn grep_scan(
    s: Seq<u8>,
    pos: int,
    line_no: int,
    used: int,
    maxb: int,
    left: int,
    pattern: Seq<char>,
    literal: bool,
    case_insensitive: bool,
) -> Seq<(int, Seq<u8>)>
    decreases s.len() - pos,
    when 0 <= pos <= s.len()
{
    if pos >= s.len() || left <= 0 {
        Seq::empty()
    } else {
        let e = nl_scan(s, pos);
        proof {
            lemma_nl_scan(s, pos);
        }
        let read = e - pos + (if e < s.len() {
            1int
        } else {
            0int
        });
        if used + read > maxb {
            Seq::empty()
        } else {
            let lineb = s.subrange(pos, e);
            if !valid_utf8(lineb) {
                Seq::empty()
            } else {
                let trimmed = trim_crlf_bytes(lineb);
                let hit = regex_decision(pattern, literal, case_insensitive, decode_utf8(trimmed))
                    == Some(true);
                let next = if e < s.len() {
                    e + 1
                } else {
                    s.len() as int
                };
                let rest = grep_scan(
                    s,
                    next,
                    line_no + 1,
                    used + read,
                    maxb,
                    if hit {
                        left - 1
                    } else {
                        left
                    },
                    pattern,
                    literal,
                    case_insensitive,
                );
                if hit {
                    seq![(line_no, trimmed)] + rest
                } else {
                    rest
                }
            }
        }
    }
}

/// The matching lines of one file: a file holding a NUL byte anywhere is
/// binary and contributes no matches; otherwise the scan from the top.
pub open spec fn grep_matches(
    s: Seq<u8>,
    maxb: int,
    left: int,
    pattern: Seq<char>,
    literal: bool,
    case_insensitive: bool,
) -> Seq<(int, Seq<u8>)> {
    if s.contains(0u8) {
        Seq::empty()
    } else {
        grep_scan(s, 0, 1, 0, maxb, left, pattern, literal, case_insensitive)
    }
}

/// A file containing a NUL byte emits no matches: binary files are
/// skipped whole.
pub proof fn lemma_grep_skips_binary(
    s: Seq<u8>,
    maxb: int,
    left: int,
    pattern: Seq<char>,
    literal: bool,
    case_insensitive: bool,
)
    requires
        s.contains(0u8),
    ensures
        grep_matches(s, maxb, left, pattern, literal, case_insensitive) == Seq::<(
            int,
            Seq<u8>,
        )>::empty(),
{
}

/// One match line as reported: `relpath:line:content`.
pub open spec fn match_line(rel: Seq<char>, line_no: int, trimmed: Seq<u8>) -> Seq<char> {
    rel + ":"@ + crate::text::dec_rep(line_no as nat) + ":"@ + decode_utf8(trimmed)
}

/// The scan reports at most `left` matches.
pub proof fn lemma_grep_scan_len(
    s: Seq<u8>,
    pos: int,
    line_no: int,
    used: int,
    maxb: int,
    left: int,
    pattern: Seq<char>,
    literal: bool,
    case_insensitive: bool,
)
    requires
        0 <= pos <= s.len(),
    ensures
        grep_scan(s, pos, line_no, used, maxb, left, pattern, literal, case_insensitive).len()
            <= (if left >= 0 {
            left
        } else {
            0
        }),
    decreases s.len() - pos,
{
    if pos >= s.len() || left <= 0 {
    } else {
        let e = nl_scan(s, pos);
        lemma_nl_scan(s, pos);
        let read = e - pos + (if e < s.len() {
            1int
        } else {
            0int
        });
        if used + read <= maxb {
            let lineb = s.subrange(pos, e);
            if valid_utf8(lineb) {
                let trimmed = trim_crlf_bytes(lineb);
                let hit = regex_decision(pattern, literal, case_insensitive, decode_utf8(trimmed))
                    == Some(true);
                let next = if e < s.len() {
                    e + 1
                } else {
                    s.len() as int
                };
                lemma_grep_scan_len(
                    s,
                    next,
                    line_no + 1,
                    used + read,
                    maxb,
                    if hit {
                        left - 1
                    } else {
                        left
                    },
                    pattern,
                    literal,
                    case_insensitive,
                );
            }
        }
    }
}

/// Trims trailing carriage returns and newlines from a byte vector slice.
fn trim_crlf_exec(line: &Vec<u8>) -> (r: Vec<u8>)
    ensures
        r@ == trim_crlf_bytes(line@),
{
    let mut hi = line.len();
    proof {
        assert(line@.take(line@.len() as int) =~= line@);
    }
    while hi > 0 && (line[hi - 1] == 0x0d || line[hi - 1] == 0x0a)
        invariant
            0 <= hi <= line@.len(),
            trim_crlf_bytes(line@) == trim_crlf_bytes(line@.take(hi as int)),
        decreases hi,
    {
        proof {
            assert(line@.take(hi as int).last() == line@[hi - 1]);
            assert(line@.take(hi as int).drop_last() =~= line@.take(hi - 1));
        }
        hi = hi - 1;
    }
    let mut out: Vec<u8> = Vec::new();
    let mut k: usize = 0;
    while k < hi
        invariant
            0 <= k <= hi <= line@.len(),
            out@ =~= line@.take(hi as int).take(k as int),
        decreases hi - k,
    {
        out.push(line[k]);
        proof {
            assert(line@.take(hi as int).take(k + 1) =~= line@.take(hi as int).take(
                k as int,
            ).push(line@[k as int]));
        }
        k = k + 1;
    }
    proof {
        let cur = line@.take(hi as int);
        assert(out@ =~= cur);
        if cur.len() > 0 {
            assert(cur.last() == line@[hi - 1]);
        }
        assert(trim_crlf_bytes(cur) == cur);
    }
    out
}

/// Scans NUL-free content for matching lines and appends each as
/// `relpath:line:content`, exactly as [`grep_scan`] lays them out.
#[verifier::rlimit(100)]
pub(crate) fn grep_file(
    content: &Vec<u8>,
    pos: usize,
    line_no: usize,
    used: usize,
    maxb: usize,
    left: usize,
    pattern: &str,
    literal: bool,
    case_insensitive: bool,
    rel: &str,
    out: &mut Vec<String>,
) -> (matched: usize)
    requires
        pos <= content@.len(),
        used <= maxb,
        line_no + (content@.len() - pos) + 1 <= usize::MAX,
        regex_decision(pattern@, literal, case_insensitive, Seq::<char>::empty()) is Some,
    ensures
        ({
            let ms = grep_scan(
                content@,
                pos as int,
                line_no as int,
                used as int,
                maxb as int,
                left as int,
                pattern@,
                literal,
                case_insensitive,
            );
            &&& final (out)@.len() == old(out)@.len() + ms.len()
            &&& matched == ms.len()
            &&& (forall|k: int|
                0 <= k < old(out)@.len() ==> #[trigger] final (out)@[k] == old(out)@[k])
            &&& (forall|k: int|
                0 <= k < ms.len() ==> #[trigger] final (out)@[old(out)@.len() + k]@ == match_line(
                    rel@,
                    ms[k].0,
                    ms[k].1,
                ))
        }),
    decreases content@.len() - pos,
{
    let ghost ms = grep_scan(
        content@,
        pos as int,
        line_no as int,
        used as int,
        maxb as int,
        left as int,
        pattern@,
        literal,
        case_insensitive,
    );
    if pos >= content.len() || left == 0 {
        return 0;
    }
    let e = nl_scan_exec(content, pos);
    let read = e - pos + (if e < content.len() {
        1
    } else {
        0
    });
    if read > maxb - used {
        return 0;
    }
    let mut lineb: Vec<u8> = Vec::new();
    let mut k = pos;
    while k < e
        invariant
            pos <= k <= e <= content@.len(),
            lineb@ =~= content@.subrange(pos as int, k as int),
        decreases e - k,
    {
        lineb.push(content[k]);
        proof {
            assert(content@.subrange(pos as int, k + 1) =~= content@.subrange(
                pos as int,
                k as int,
            ).push(content@[k as int]));
        }
        k = k + 1;
    }
    proof {
        assert(lineb@ =~= content@.subrange(pos as int, e as int));
    }
    if !utf8_check(&lineb) {
        return 0;
    }
    let trimmed = trim_crlf_exec(&lineb);
    proof {
        lemma_trim_crlf_valid(lineb@);
    }
    let line_text = bytes_to_string_lossy(&trimmed);
    let hit = match regex_match(pattern, literal, case_insensitive, line_text.as_str()) {
        Ok(b) => b,
        Err(_) => false,
    };
    let mut matched: usize = 0;
    let ghost msgv: Seq<char> = match_line(rel@, line_no as int, trimmed@);
    if hit {
        let msg = clone_string_from(rel).concat(":").concat(
            usize_to_string(line_no).as_str(),
        ).concat(":").concat(line_text.as_str());
        proof {
            assert(msg@ =~= msgv);
        }
        out.push(msg);
        matched = 1;
    }
    let next = if e < content.len() {
        e + 1
    } else {
        content.len()
    };
    let ghost mid = out@;
    let sub = grep_file(
        content,
        next,
        line_no + 1,
        used + read,
        maxb,
        if hit {
            left - 1
        } else {
            left
        },
        pattern,
        literal,
        case_insensitive,
        rel,
        out,
    );
    proof {
        let rest = grep_scan(
            content@,
            next as int,
            line_no + 1,
            used + read,
            maxb as int,
            if hit {
                left - 1
            } else {
                left as int
            },
            pattern@,
            literal,
            case_insensitive,
        );
        lemma_grep_scan_len(
            content@,
            next as int,
            line_no + 1,
            used + read,
            maxb as int,
            if hit {
                left - 1
            } else {
                left as int
            },
            pattern@,
            literal,
            case_insensitive,
        );
        if hit {
            assert(ms =~= seq![(line_no as int, trimmed@)] + rest);
            assert(mid.len() == old(out)@.len() + 1);
            assert(mid[old(out)@.len() as int]@ == msgv);
            assert forall|k: int| 0 <= k < ms.len() implies #[trigger] out@[old(out)@.len()
                + k]@ == match_line(rel@, ms[k].0, ms[k].1) by {
                if k == 0 {
                    assert(out@[old(out)@.len() as int] == mid[old(out)@.len() as int]);
                    assert(ms[0] == (line_no as int, trimmed@));
                } else {
                    assert(ms[k] == rest[k - 1]);
                    assert(out@[mid.len() + (k - 1)]@ == match_line(
                        rel@,
                        rest[k - 1].0,
                        rest[k - 1].1,
                    ));
                    assert(old(out)@.len() + k == mid.len() + (k - 1));
                }
            }
        } else {
            assert(ms =~= rest);
        }
    }
    matched + sub
}


/// Greps one file after checking the pattern: an invalid pattern comes
/// back as the builder's message and nothing is appended; a file holding a
/// NUL byte is binary and contributes nothing; otherwise the matching
/// lines are appended as [`grep_matches`] lays them out.
pub fn grep_file_checked(
    content: &Vec<u8>,
    maxb: usize,
    left: usize,
    pattern: &str,
    literal: bool,
    case_insensitive: bool,
    rel: &str,
    out: &mut Vec<String>,
) -> (r: Result<usize, String>)
    requires
        content@.len() + 2 <= usize::MAX,
    ensures
        match r {
            Ok(matched) => {
                let ms = grep_matches(
                    content@,
                    maxb as int,
                    left as int,
                    pattern@,
                    literal,
                    case_insensitive,
                );
                &&& final (out)@.len() == old(out)@.len() + ms.len()
                &&& matched == ms.len()
                &&& (forall|k: int|
                    0 <= k < old(out)@.len() ==> #[trigger] final (out)@[k] == old(out)@[k])
                &&& (forall|k: int|
                    0 <= k < ms.len() ==> #[trigger] final (out)@[old(out)@.len() + k]@
                        == match_line(rel@, ms[k].0, ms[k].1))
            },
            Err(_) => final (out)@ == old(out)@,
        },
{
    match regex_check(pattern, literal, case_insensitive) {
        Ok(()) => {
            let n = content.len();
            let mut k: usize = 0;
            while k < n
                invariant
                    0 <= k <= n,
                    n == content@.len(),
                    forall|j: int| 0 <= j < k ==> content@[j] != 0u8,
                decreases n - k,
            {
                if content[k] == 0 {
                    return Ok(0);
                }
                k = k + 1;
            }
            proof {
                if content@.contains(0u8) {
                    let j = choose|j: int| 0 <= j < content@.len() && content@[j] == 0u8;
                    assert(false);
                }
            }
            Ok(
                grep_file(
                    content,
                    0,
                    1,
                    0,
                    maxb,
                    left,
                    pattern,
                    literal,
                    case_insensitive,
                    rel,
                    out,
                ),
            )
        },
        Err(e) => Err(e),
    }
}

/// Trimming carriage returns and newlines off a valid UTF-8 line keeps it
/// valid.
proof fn lemma_trim_crlf_valid(s: Seq<u8>)
    requires
        valid_utf8(s),
    ensures
        valid_utf8(trim_crlf_bytes(s)),
    decreases s.len(),
{
    if s.len() > 0 && (s.last() == 0x0d || s.last() == 0x0a) {
        vstd::utf8::is_char_boundary_iff_not_is_continuation_byte(s, s.len() - 1);
        vstd::utf8::valid_utf8_split(s, s.len() - 1);
        assert(s.drop_last() =~= s.subrange(0, s.len() - 1));
        lemma_trim_crlf_valid(s.drop_last());
    }
}


/// What a write invocation asks for, once its arguments are accepted.
#[derive(Debug)]
pub struct WritePlan {
    pub path: String,
    pub rel: String,
    pub content: String,
    pub append: bool,
    pub create: bool,
    pub atomic: bool,
}

/// An optional boolean argument.
pub open spec fn opt_bool_arg(v: JsonV, key: Seq<char>) -> bool {
    match obj_get(v, key) {
        Option::None => true,
        Some(JsonV::Bool(_)) => true,
        Some(_) => false,
    }
}

/// The write arguments are acceptable: a confined string path, a string
/// content, and optional boolean flags.
pub open spec fn write_args_ok(v: JsonV) -> bool {
    &&& obj_get(v, "path"@) matches Some(JsonV::Str(p)) && !path_is_absolute(
        vstd::utf8::encode_utf8(p),
    ) && !path_escapes(vstd::utf8::encode_utf8(p))
    &&& obj_get(v, "content"@) matches Some(JsonV::Str(_))
    &&& opt_bool_arg(v, "append"@)
    &&& opt_bool_arg(v, "create"@)
    &&& opt_bool_arg(v, "atomic"@)
}

/// Reads an optional boolean argument.
fn take_opt_bool(v: &Json, key: &str, default: bool) -> (r: Result<bool, ()>)
    ensures
        r is Ok <==> opt_bool_arg(v@, key@),
        match r {
            Ok(b) => match obj_get(v@, key@) {
                Some(JsonV::Bool(x)) => b == x,
                _ => b == default,
            },
            Err(()) => true,
        },
{
    match v.get(key) {
        Some(f) => match f {
            Json::Bool(b) => Ok(*b),
            _ => Err(()),
        },
        None => Ok(default),
    }
}

/// Checks the write arguments and resolves the path.  Create defaults on,
/// append off, atomic on; an unconfined path is a policy failure.
pub fn plan_write(args: &Json, config: &BuiltinToolConfig) -> (r: Result<WritePlan, ToolOutput>)
    ensures
        r is Ok <==> write_args_ok(args@),
        match r {
            Ok(plan) => {
                &&& (obj_get(args@, "path"@) matches Some(JsonV::Str(p)) && plan.path@
                    == config.workspace_root@ + "/"@ + p)
                &&& (obj_get(args@, "content"@) matches Some(JsonV::Str(c)) && plan.content@
                    == c)
                &&& (match obj_get(args@, "append"@) {
                    Some(JsonV::Bool(b)) => plan.append == b,
                    _ => plan.append == false,
                })
                &&& (match obj_get(args@, "create"@) {
                    Some(JsonV::Bool(b)) => plan.create == b,
                    _ => plan.create == true,
                })
                &&& (match obj_get(args@, "atomic"@) {
                    Some(JsonV::Bool(b)) => plan.atomic == b,
                    _ => plan.atomic == true,
                })
            },
            Err(out) => {
                &&& out.stderr@.len() == 0
                &&& out.artifacts is None
                &&& out.stdout@.len() == 1
                &&& {
                    let v = args@;
                    if !(obj_get(v, "path"@) matches Some(JsonV::Str(_))) {
                        out.exit_code == 2 && out.stdout@[0]@ == "invalid args: path"@
                    } else if !(obj_get(v, "content"@) matches Some(JsonV::Str(_))) {
                        out.exit_code == 2 && out.stdout@[0]@ == "invalid args: content"@
                    } else if !opt_bool_arg(v, "append"@) {
                        out.exit_code == 2 && out.stdout@[0]@ == "invalid args: append"@
                    } else if !opt_bool_arg(v, "create"@) {
                        out.exit_code == 2 && out.stdout@[0]@ == "invalid args: create"@
                    } else if !opt_bool_arg(v, "atomic"@) {
                        out.exit_code == 2 && out.stdout@[0]@ == "invalid args: atomic"@
                    } else {
                        &&& out.exit_code == 1
                        &&& (obj_get(v, "path"@) matches Some(JsonV::Str(p))
                            && (path_is_absolute(vstd::utf8::encode_utf8(p)) ==> out.stdout@[0]@
                            == "absolute paths are not allowed"@) && (!path_is_absolute(
                            vstd::utf8::encode_utf8(p),
                        ) ==> out.stdout@[0]@ == "path escapes workspace root"@))
                    }
                }
            },
        },
{
    let path_str = match args.get("path") {
        Some(f) => match f.as_str() {
            Some(s) => clone_string(s),
            None => {
                return Err(ToolOutput::invalid_args(String::from_str("invalid args: path")));
            },
        },
        None => {
            return Err(ToolOutput::invalid_args(String::from_str("invalid args: path")));
        },
    };
    let content = match args.get("content") {
        Some(f) => match f.as_str() {
            Some(s) => clone_string(s),
            None => {
                return Err(
                    ToolOutput::invalid_args(String::from_str("invalid args: content")),
                );
            },
        },
        None => {
            return Err(ToolOutput::invalid_args(String::from_str("invalid args: content")));
        },
    };
    let append = match take_opt_bool(args, "append", false) {
        Ok(b) => b,
        Err(()) => {
            return Err(ToolOutput::invalid_args(String::from_str("invalid args: append")));
        },
    };
    let create = match take_opt_bool(args, "create", true) {
        Ok(b) => b,
        Err(()) => {
            return Err(ToolOutput::invalid_args(String::from_str("invalid args: create")));
        },
    };
    let atomic = match take_opt_bool(args, "atomic", true) {
        Ok(b) => b,
        Err(()) => {
            return Err(ToolOutput::invalid_args(String::from_str("invalid args: atomic")));
        },
    };
    let path = match resolve_path(config.workspace_root.as_str(), path_str.as_str()) {
        Ok(p) => p,
        Err(msg) => {
            let mut msgs: Vec<String> = Vec::new();
            msgs.push(msg);
            return Err(ToolOutput::failure(msgs));
        },
    };
    Ok(WritePlan { path, rel: path_str, content, append, create, atomic })
}

/// The report of a completed write: `wrote N bytes` with the path and the
/// count in the artifacts.
pub fn write_report(rel: &str, bytes_written: usize) -> (r: ToolOutput)
    ensures
        r.exit_code == 0,
        r.stderr@.len() == 0,
        r.stdout@.len() == 1,
        r.stdout@[0]@ == "wrote "@ + crate::text::dec_rep(bytes_written as nat) + " bytes"@,
        r.artifacts is Some,
{
    let msg = String::from_str("wrote ").concat(usize_to_string(bytes_written).as_str()).concat(
        " bytes",
    );
    let mut stdout: Vec<String> = Vec::new();
    stdout.push(msg);
    let mut fields: Vec<(String, Json)> = Vec::new();
    fields.push((String::from_str("path"), Json::str(rel)));
    fields.push((String::from_str("bytes_written"), Json::Int(
        if bytes_written as u64 <= i64::MAX as u64 {
            bytes_written as i64
        } else {
            i64::MAX
        },
    )));
    ToolOutput { stdout, stderr: Vec::new(), exit_code: 0, artifacts: Some(Json::Obj(fields)) }
}

} // verus!
