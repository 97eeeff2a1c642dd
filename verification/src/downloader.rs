//! Segment planning and download orchestration state: splitting a resource
//! of known size into contiguous byte ranges, one per concurrent worker.

use vstd::prelude::*;
use vstd::string::StrSliceExecFns;
use crate::config::DownloadConfig;
use crate::decimal::{dec_rep, u64_to_string};
use crate::error::DownloaderError;
use crate::locator::{split_url, url_host_of, url_path_of};
use crate::request::{build_range_request, range_request_spec};

verus! {

/// One contiguous byte range of the resource, assigned to one worker.
/// `start` and `end` are inclusive byte offsets; `part_number` is the
/// 0-based position of the range within the plan.
#[derive(Clone, Copy, PartialEq, Eq, Structural, Debug)]
pub struct DownloadPart {
    /// Starting byte of the part (inclusive).
    pub start: u64,
    /// Ending byte of the part (inclusive).
    pub end: u64,
    /// Identifier for the part.
    pub part_number: usize,
}

/// The width of every part but the last: the total size divided by the
/// worker count, rounded down.
pub open spec fn part_len(total_size: u64, count: usize) -> int {
    total_size as int / count as int
}

/// The part the plan assigns to index `i`: it spans
/// `[i * part_len, (i + 1) * part_len - 1]`, except that the final part
/// runs to the last byte of the resource and so absorbs the remainder.
pub open spec fn planned_part(total_size: u64, count: usize, i: int) -> DownloadPart {
    DownloadPart {
        start: (i * part_len(total_size, count)) as u64,
        end: if i == count - 1 {
            (total_size - 1) as u64
        } else {
            (i * part_len(total_size, count) + part_len(total_size, count) - 1) as u64
        },
        part_number: i as usize,
    }
}

/// The whole plan for `count` workers over `total_size` bytes.
pub open spec fn plan_spec(total_size: u64, count: usize) -> Seq<DownloadPart> {
    Seq::new(count as nat, |i: int| planned_part(total_size, count, i))
}

/// Whether `plan` accepts its inputs at all.
pub open spec fn plan_inputs_valid(total_size: u64, count: usize) -> bool {
    count != 0 && total_size != 0
}

/// Splits `total_size` bytes into `count` ordered, contiguous parts.
///
/// Rejects a zero worker count or a zero total size with an input error;
/// otherwise the parts are exactly `plan_spec(total_size, count)`.
pub fn plan(total_size: u64, count: usize) -> (r: Result<Vec<DownloadPart>, DownloaderError>)
    requires
        plan_inputs_valid(total_size, count) ==> count as u64 <= total_size,
    ensures
        r is Ok <==> plan_inputs_valid(total_size, count),
        r is Err ==> r->Err_0 is UserInputError,
        r is Ok ==> r->Ok_0@ == plan_spec(total_size, count),
{
    if count == 0 || total_size == 0 {
        return Err(
            DownloaderError::UserInputError(
                String::from_str("worker count and total size must both be positive"),
            ),
        );
    }
    let part_size = total_size / (count as u64);
    proof {
        assert(count as u64 as int == count as int);
        assert(part_size as int == part_len(total_size, count));
        lemma_part_len_bounds(total_size, count);
    }
    let mut parts: Vec<DownloadPart> = Vec::new();
    let mut i: usize = 0;
    while i < count
        invariant
            i <= count,
            0 < count as u64 <= total_size,
            part_size as int == part_len(total_size, count),
            1 <= part_size as int,
            count as int * part_size as int <= total_size as int,
            parts@.len() == i,
            forall|j: int|
                0 <= j < i ==> parts@[j] == planned_part(total_size, count, j),
        decreases count - i,
    {
        proof {
            lemma_mul_bound_for_index(i as int, count as int, part_size as int, total_size as int);
        }
        let start = (i as u64) * part_size;
        let end = if i == count - 1 {
            total_size - 1
        } else {
            start + part_size - 1
        };
        parts.push(DownloadPart { start, end, part_number: i });
        i += 1;
    }
    proof {
        assert(parts@ =~= plan_spec(total_size, count));
    }
    Ok(parts)
}

/// `part_len` is at least 1 and `count` copies of it fit in `total_size`,
/// whenever the count is positive and no larger than the size.
proof fn lemma_part_len_bounds(total_size: u64, count: usize)
    requires
        0 < count as u64 <= total_size,
    ensures
        1 <= part_len(total_size, count),
        count as int * part_len(total_size, count) <= total_size as int,
{
    let t = total_size as int;
    let c = count as int;
    vstd::arithmetic::div_mod::lemma_fundamental_div_mod(t, c);
    vstd::arithmetic::div_mod::lemma_remainder_lower(t, c);
    assert(t / c >= 1) by {
        vstd::arithmetic::div_mod::lemma_div_is_ordered(c, t, c);
        vstd::arithmetic::div_mod::lemma_div_by_self(c);
    }
}

/// For any index `i < c`, the start offset `i * p` and the following
/// stretch of `p` bytes stay inside a total of `t` bytes, given that all
/// `c` parts of width `p` fit.
proof fn lemma_mul_bound_for_index(i: int, c: int, p: int, t: int)
    requires
        0 <= i < c,
        1 <= p,
        c * p <= t,
    ensures
        i * p + p <= t,
        0 <= i * p,
{
    assert((i + 1) * p <= c * p) by (nonlinear_arith)
        requires 0 <= i < c && 1 <= p;
    assert((i + 1) * p == i * p + p) by (nonlinear_arith);
    assert(i * p >= 0) by (nonlinear_arith)
        requires 0 <= i && 1 <= p;
}

/// The planner's output is a contiguous partition of `[0, total_size)`:
/// one part per worker, the first starting at byte 0, each part ending
/// right before its successor begins, and the last ending at the final
/// byte of the resource.
pub proof fn lemma_plan_is_partition(total_size: u64, count: usize)
    requires
        0 < count as u64 <= total_size,
    ensures
        plan_spec(total_size, count).len() == count,
        forall|i: int|
            0 <= i < count ==> (#[trigger] plan_spec(total_size, count)[i]).part_number == i,
        plan_spec(total_size, count)[0].start == 0,
        plan_spec(total_size, count)[count - 1].end == total_size - 1,
        forall|i: int|
            0 <= i < count - 1 ==> (#[trigger] plan_spec(total_size, count)[i]).end + 1
                == plan_spec(total_size, count)[i + 1].start,
        forall|i: int|
            0 <= i < count ==> (#[trigger] plan_spec(total_size, count)[i]).start
                <= plan_spec(total_size, count)[i].end,
{
    let p = part_len(total_size, count);
    let t = total_size as int;
    let c = count as int;
    lemma_part_len_bounds(total_size, count);
    assert forall|i: int| 0 <= i < c implies #[trigger] (i * p) + p <= t && 0 <= i * p by {
        lemma_mul_bound_for_index(i, c, p, t);
    }
    assert forall|i: int| 0 <= i < c - 1 implies (#[trigger] plan_spec(total_size, count)[i]).end
        + 1 == plan_spec(total_size, count)[i + 1].start by {
        assert((i + 1) * p == i * p + p) by (nonlinear_arith);
    }
    assert forall|i: int| 0 <= i < c implies (#[trigger] plan_spec(total_size, count)[i]).start
        <= plan_spec(total_size, count)[i].end by {
        if i < c - 1 {
        } else {
            assert(i * p + p <= t);
        }
    }
}

/// The byte sequence one part buffer holds.
pub open spec fn part_bytes(p: Vec<u8>) -> Seq<u8> {
    p@
}

/// The index-ordered concatenation of per-part buffers.
pub open spec fn concat_parts(parts: Seq<Vec<u8>>) -> Seq<u8> {
    parts.flat_map(|p: Vec<u8>| part_bytes(p))
}

/// Concatenates the per-part buffers, in ascending index order, into the
/// final byte sequence — the assembly step, on bytes already read back
/// from the per-part artifacts.
///
/// The output is exactly the concatenation of the inputs in the order
/// given, whatever order the buffers were produced in. Fails with a file
/// error exactly when the part list is empty.
#[verifier::loop_isolation(false)]
pub fn merge_parts(parts: &Vec<Vec<u8>>) -> (r: Result<Vec<u8>, DownloaderError>)
    ensures
        r is Ok <==> parts@.len() > 0,
        r is Err ==> r->Err_0 is FileError,
        r is Ok ==> r->Ok_0@ == concat_parts(parts@),
{
    if parts.len() == 0 {
        return Err(
            DownloaderError::FileError(String::from_str("No parts to merge. Parts list is empty.")),
        );
    }
    let mut out: Vec<u8> = Vec::new();
    proof {
        assert(parts@.take(0).flat_map(|p: Vec<u8>| part_bytes(p)) =~= Seq::<u8>::empty());
    }
    let mut i: usize = 0;
    while i < parts.len()
        invariant
            i <= parts@.len(),
            out@ == concat_parts(parts@.take(i as int)),
        decreases parts@.len() - i,
    {
        let part = &parts[i];
        let mut j: usize = 0;
        while j < part.len()
            invariant
                j <= part@.len(),
                out@ == concat_parts(parts@.take(i as int)) + part@.take(j as int),
            decreases part@.len() - j,
        {
            out.push(part[j]);
            proof {
                assert(part@.take(j + 1) =~= part@.take(j as int).push(part@[j as int]));
                assert(out@ =~= concat_parts(parts@.take(i as int)) + part@.take(j + 1));
            }
            j += 1;
        }
        proof {
            assert(part@.take(part@.len() as int) =~= part@);
            parts@.lemma_flat_map_take_append(|p: Vec<u8>| part_bytes(p), i as int);
            assert(out@ =~= concat_parts(parts@.take(i + 1)));
        }
        i += 1;
    }
    proof {
        assert(parts@.take(parts@.len() as int) =~= parts@);
    }
    Ok(out)
}

/// The position of the first failed worker result at or after `i`.
pub open spec fn first_error_pos(rs: Seq<Result<u64, DownloaderError>>, i: int) -> Option<int>
    decreases rs.len() - i,
{
    if i < 0 || i >= rs.len() {
        None
    } else if rs[i] is Err {
        Some(i)
    } else {
        first_error_pos(rs, i + 1)
    }
}

/// Reduces the workers' results, taken in part order, to the overall
/// outcome: success when every worker succeeded, otherwise the first
/// error encountered, unchanged — later failures are never surfaced.
#[verifier::loop_isolation(false)]
pub fn collect_results(results: Vec<Result<u64, DownloaderError>>) -> (r: Result<
    (),
    DownloaderError,
>)
    ensures
        r is Ok <==> first_error_pos(results@, 0) is None,
        r is Err ==> first_error_pos(results@, 0) is Some && results@[first_error_pos(
            results@,
            0,
        )->0] == Err::<u64, DownloaderError>(r->Err_0),
{
    let mut rs = results;
    let n = rs.len();
    let mut i: usize = 0;
    while i < n
        invariant
            rs@ == results@,
            n == rs@.len(),
            i <= n,
            first_error_pos(results@, 0) == first_error_pos(results@, i as int),
        decreases n - i,
    {
        let is_err = match &rs[i] {
            Ok(_) => false,
            Err(_) => true,
        };
        if is_err {
            proof {
                assert(first_error_pos(results@, i as int) == Some(i as int));
            }
            let taken = rs.remove(i);
            match taken {
                Err(e) => {
                    return Err(e);
                },
                Ok(_) => {
                    proof {
                        assert(false);
                    }
                },
            }
        }
        i += 1;
    }
    proof {
        assert(first_error_pos(results@, i as int) is None);
    }
    Ok(())
}

/// The length of the directory prefix of a path: everything up to and
/// including its last '/', or 0 when it has no slash.
pub open spec fn dir_prefix_len(s: Seq<char>) -> int
    decreases s.len(),
{
    if s.len() == 0 {
        0
    } else if s.last() == '/' {
        s.len() as int
    } else {
        dir_prefix_len(s.drop_last())
    }
}

/// The directory prefix stays within the path.
proof fn lemma_dir_prefix_len_bounds(s: Seq<char>)
    ensures
        0 <= dir_prefix_len(s) <= s.len(),
    decreases s.len(),
{
    if s.len() == 0 {
    } else if s.last() == '/' {
    } else {
        lemma_dir_prefix_len_bounds(s.drop_last());
    }
}

/// The index of the last '.' of a file name, or -1 when it has none.
pub open spec fn last_dot(f: Seq<char>) -> int
    decreases f.len(),
{
    if f.len() == 0 {
        -1
    } else if f.last() == '.' {
        f.len() - 1
    } else {
        last_dot(f.drop_last())
    }
}

/// The last dot lies within the file name, when there is one.
proof fn lemma_last_dot_bounds(f: Seq<char>)
    ensures
        -1 <= last_dot(f) < f.len(),
    decreases f.len(),
{
    if f.len() == 0 {
    } else if f.last() == '.' {
    } else {
        lemma_last_dot_bounds(f.drop_last());
    }
}

/// The extension of a file name: what follows its last '.', provided
/// that dot is neither absent nor the name's first character.
pub open spec fn ext_of(f: Seq<char>) -> Seq<char> {
    let d = last_dot(f);
    if d <= 0 {
        Seq::empty()
    } else {
        f.subrange(d + 1, f.len() as int)
    }
}

/// The artifact name for one part, derived from the output path: the
/// path's directory, then `part` and the part's index, then the output
/// name's extension when it has one.
pub open spec fn part_filename_spec(output: Seq<char>, index: nat) -> Seq<char> {
    let dir = output.subrange(0, dir_prefix_len(output));
    let name = output.subrange(dir_prefix_len(output), output.len() as int);
    let ext = ext_of(name);
    if ext.len() == 0 {
        dir + "part"@ + dec_rep(index)
    } else {
        dir + "part"@ + dec_rep(index) + "."@ + ext
    }
}

/// Derives one part's artifact name from the output path, matching
/// `part_filename_spec` exactly.
#[verifier::loop_isolation(false)]
pub fn part_filename(output: &str, part_number: usize) -> (r: String)
    ensures
        r@ == part_filename_spec(output@, part_number as nat),
{
    let n = output.unicode_len();
    proof {
        lemma_dir_prefix_len_bounds(output@);
    }
    let mut dpl: usize = 0;
    let mut i: usize = 0;
    while i < n
        invariant
            n == output@.len(),
            i <= n,
            dpl as int == dir_prefix_len(output@.take(i as int)),
            dpl <= i,
        decreases n - i,
    {
        proof {
            assert(output@.take(i + 1).drop_last() =~= output@.take(i as int));
            assert(output@.take(i + 1).last() == output@[i as int]);
        }
        if output.get_char(i) == '/' {
            dpl = i + 1;
        }
        i += 1;
    }
    proof {
        assert(output@.take(n as int) =~= output@);
    }
    let ghost name = output@.subrange(dpl as int, n as int);
    proof {
        lemma_last_dot_bounds(name);
    }
    let mut has_dot: bool = false;
    let mut dot: usize = 0;
    let mut j: usize = dpl;
    while j < n
        invariant
            n == output@.len(),
            dpl <= j <= n,
            name == output@.subrange(dpl as int, n as int),
            has_dot ==> dpl <= dot < j,
            last_dot(name.take(j - dpl)) == if has_dot {
                dot - dpl
            } else {
                -1
            },
        decreases n - j,
    {
        proof {
            assert(name.take(j + 1 - dpl).drop_last() =~= name.take(j - dpl));
            assert(name.take(j + 1 - dpl).last() == name[j - dpl]);
            assert(name[j - dpl] == output@[j as int]);
        }
        if output.get_char(j) == '.' {
            has_dot = true;
            dot = j;
        }
        j += 1;
    }
    proof {
        assert(name.take(n - dpl) =~= name);
    }
    let mut r = String::new();
    r.append(output.substring_char(0, dpl));
    r.append("part");
    let number_text = u64_to_string(part_number as u64);
    proof {
        assert(part_number as u64 as nat == part_number as nat);
        assert(number_text@ == dec_rep(part_number as nat));
    }
    r.append(number_text.as_str());
    if has_dot && dot > dpl && dot + 1 < n {
        r.append(".");
        r.append(output.substring_char(dot + 1, n));
        proof {
            assert(ext_of(name) =~= output@.subrange(dot + 1, n as int));
            assert(r@ =~= part_filename_spec(output@, part_number as nat));
        }
    } else {
        proof {
            assert(ext_of(name) =~= Seq::<char>::empty());
            assert(r@ =~= part_filename_spec(output@, part_number as nat));
        }
    }
    r
}

/// Owns the configuration, the discovered total size, and the plan the
/// workers will execute.
pub struct DownloadManager {
    /// Configuration for the download.
    pub config: DownloadConfig,
    /// Total size of the file.
    pub total_size: u64,
    /// Parts of the file to download.
    pub parts: Vec<DownloadPart>,
}

impl DownloadManager {
    /// Plans the download once from the configuration and the discovered
    /// total size: one part per configured connection.
    ///
    /// Fails with an input error exactly when the connection count or the
    /// total size is zero.
    pub fn new(config: DownloadConfig, total_size: u64) -> (r: Result<Self, DownloaderError>)
        requires
            plan_inputs_valid(total_size, config.num_connections)
                ==> config.num_connections as u64 <= total_size,
        ensures
            r is Ok <==> plan_inputs_valid(total_size, config.num_connections),
            r is Err ==> r->Err_0 is UserInputError,
            r is Ok ==> {
                &&& r->Ok_0.config == config
                &&& r->Ok_0.total_size == total_size
                &&& r->Ok_0.parts@ == plan_spec(total_size, config.num_connections)
            },
    {
        let parts = match plan(total_size, config.num_connections) {
            Ok(parts) => parts,
            Err(e) => { return Err(e); },
        };
        Ok(Self { config, total_size, parts })
    }

    /// The artifact name for one part: the configured output path's
    /// directory, then `part` and the index, then the output's extension.
    pub fn get_part_filename(&self, part_number: usize) -> (r: String)
        ensures
            r@ == part_filename_spec(self.config.output_file@, part_number as nat),
    {
        part_filename(self.config.output_file.as_str(), part_number)
    }

    /// The hostname and path named by the configured source locator.
    ///
    /// Succeeds exactly when the locator parses as a URL with a host.
    pub fn remote_target(&self) -> (r: Result<(String, String), DownloaderError>)
        ensures
            r is Ok <==> url_host_of(self.config.url@) is Some,
            r is Ok ==> r->Ok_0.0@ == url_host_of(self.config.url@)->Some_0,
            r is Ok ==> r->Ok_0.1@ == url_path_of(self.config.url@),
            r is Err ==> r->Err_0 is UrlParseError,
    {
        split_url(self.config.url.as_str())
    }

    /// The exact range request one worker sends for the part at `index`.
    pub fn part_request(&self, host: &str, path: &str, index: usize) -> (r: String)
        requires
            index < self.parts@.len(),
        ensures
            r@ == range_request_spec(
                path@,
                host@,
                self.parts@[index as int].start,
                self.parts@[index as int].end,
            ),
    {
        let part = &self.parts[index];
        build_range_request(path, host, part.start, part.end)
    }
}

} // verus!
