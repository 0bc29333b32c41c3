//! Directory iteration, long-name pairing, and path resolution.
//!
//! The iterator drives repeated record decodes over a directory's raw byte
//! region, applies tombstone and sentinel rules, pairs an accumulated long
//! name with the short entry that terminates a run, and yields resolved
//! entries. The resolver splits slash-delimited paths and looks components
//! up case-insensitively.

use vstd::prelude::*;
use crate::error::Error;
use crate::file::FatFile;
use crate::lfn::{lfn_insert, lfn_trim, lfn_buf_insert, lfn_buf_trim, lfn_assemble_reverse, LFN_BUF_MAX};
use crate::names::{
    ascii_name, trim_trailing_spaces, spec_short_name_bytes, spec_display16, spec_eq_ignore_ascii_case16, spec_short_name_chars, spec_utf16,
    utf16_lossy_of, display_name_units, encode_utf16_str, eq_ignore_ascii_case16, is_ascii_bytes,
    short_name_bytes, string_from_ascii, string_from_utf16_lossy,
};
use crate::record::{
    ATTR_DIRECTORY, ATTR_VOLUME_ID, FatDirEntryData, FatDirFileEntryData, SpecShortEntry,
    parse_dir_entry_data, rec_attrs_valid, rec_is_lfn, rec_lfn, rec_short, FatFileAttributes,
};
use crate::time::{
    FatDate, FatDateTime, convert_date, convert_date_time, spec_decode_date,
    spec_decode_date_time,
};
use crate::volume::{FatSharedState, SpecFs, region_lookup, region_bytes_ref, lemma_fs_view};

verus! {

/// Ghost model of one resolved directory entry: the short record's fields
/// plus the reconstructed long name (empty when no fragments preceded it).
#[verifier::ext_equal]
pub struct SpecDirEntry {
    /// The short record's fields.
    pub short: SpecShortEntry,
    /// The reconstructed, trimmed long name; empty when absent.
    pub lfn: Seq<u16>,
}

/// Failure cases of decoding and resolution, at the model level.
pub enum SpecErr {
    /// Fewer than 32 bytes remained before a terminating record.
    Eof,
    /// A record was malformed (attribute byte, slot index, or name bytes).
    Corrupt,
    /// No entry matched a path component.
    NotFound,
    /// A file was asked of a directory entry or the other way around.
    InvalidInput,
}

/// The error that a model-level failure surfaces as.
pub open spec fn spec_err_to_error<E>(e: SpecErr) -> Error<E> {
    match e {
        SpecErr::Eof => Error::UnexpectedEof,
        SpecErr::Corrupt => Error::CorruptedFileSystem,
        SpecErr::NotFound => Error::NotFound,
        SpecErr::InvalidInput => Error::InvalidInput,
    }
}

/// What one iteration step yields: an entry, the end of the directory, or a
/// failure; each with the byte position after the step.
pub enum SpecNextStep {
    /// A resolved entry was emitted.
    Entry(SpecDirEntry, int),
    /// A short record with first name byte 0 terminated the directory.
    End(int),
    /// Decoding failed.
    Fail(SpecErr, int),
}

/// Whether the entry has the DIRECTORY attribute.
pub open spec fn spec_is_dir(s: SpecShortEntry) -> bool {
    s.attrs & ATTR_DIRECTORY == ATTR_DIRECTORY
}

/// The 32-bit cluster reference combined from its high and low halves.
pub open spec fn spec_cluster(s: SpecShortEntry) -> u32 {
    (s.cluster_hi * 0x10000 + s.cluster_lo) as u32
}

/// One iteration step over the raw bytes `b`, starting at position `p` with
/// the accumulated long-name buffer `acc`: records are consumed until one of
/// them yields an entry, ends the directory, or fails.
pub open spec fn spec_next(b: Seq<u8>, p: int, acc: Seq<u16>) -> SpecNextStep
    decreases b.len() - p,
{
    if p < 0 || p + 32 > b.len() {
        SpecNextStep::Fail(SpecErr::Eof, b.len() as int)
    } else {
        let rec = b.subrange(p, p + 32);
        if !rec_attrs_valid(rec) {
            SpecNextStep::Fail(SpecErr::Corrupt, p + 32)
        } else if rec_is_lfn(rec) {
            let l = rec_lfn(rec);
            if l.order == 0xe5 {
                spec_next(b, p + 32, Seq::empty())
            } else if l.order & 0x1f == 0 {
                SpecNextStep::Fail(SpecErr::Corrupt, p + 32)
            } else {
                spec_next(b, p + 32, lfn_insert(acc, (l.order & 0x1f) - 1, l.units))
            }
        } else {
            let s = rec_short(rec);
            if s.name[0] == 0 {
                SpecNextStep::End(p + 32)
            } else if s.name[0] == 0xe5 || s.attrs & ATTR_VOLUME_ID == ATTR_VOLUME_ID {
                spec_next(b, p + 32, Seq::empty())
            } else if !ascii_name(s.name) {
                SpecNextStep::Fail(SpecErr::Corrupt, p + 32)
            } else {
                SpecNextStep::Entry(SpecDirEntry { short: s, lfn: lfn_trim(acc) }, p + 32)
            }
        }
    }
}

/// The position after a step lies past the consumed records and within the
/// region (except that a premature end reports the region's end).
pub proof fn lemma_spec_next_pos(b: Seq<u8>, p: int, acc: Seq<u16>)
    ensures
        spec_next(b, p, acc) matches SpecNextStep::Entry(m, q) ==> p + 32 <= q <= b.len(),
        spec_next(b, p, acc) matches SpecNextStep::End(q) ==> p + 32 <= q <= b.len(),
        spec_next(b, p, acc) matches SpecNextStep::Fail(e, q) ==> 0 <= q <= b.len(),
    decreases b.len() - p,
{
    if p >= 0 && p + 32 <= b.len() {
        let rec = b.subrange(p, p + 32);
        if rec_attrs_valid(rec) {
            if rec_is_lfn(rec) {
                let l = rec_lfn(rec);
                if l.order == 0xe5 {
                    lemma_spec_next_pos(b, p + 32, Seq::empty());
                } else if l.order & 0x1f != 0 {
                    lemma_spec_next_pos(b, p + 32, lfn_insert(acc, (l.order & 0x1f) - 1, l.units));
                }
            } else {
                let s = rec_short(rec);
                if s.name[0] == 0xe5 || s.attrs & ATTR_VOLUME_ID == ATTR_VOLUME_ID {
                    lemma_spec_next_pos(b, p + 32, Seq::empty());
                }
            }
        }
    }
}

/// The full listing of the directory bytes `b` from position `p`: every
/// emitted entry in on-disk order, or the failure that aborts the drain.
pub open spec fn spec_list_from(b: Seq<u8>, p: int) -> Result<Seq<SpecDirEntry>, SpecErr>
    decreases b.len() - p
        via spec_list_from_dec
{
    match spec_next(b, p, Seq::empty()) {
        SpecNextStep::End(_) => Ok(Seq::empty()),
        SpecNextStep::Fail(e, _) => Err(e),
        SpecNextStep::Entry(m, q) => match spec_list_from(b, q) {
            Ok(rest) => Ok(seq![m] + rest),
            Err(e) => Err(e),
        },
    }
}

#[via_fn]
proof fn spec_list_from_dec(b: Seq<u8>, p: int) {
    lemma_spec_next_pos(b, p, Seq::empty());
}

/// Whether the 32-byte record `rec` is the surviving long-name fragment that
/// carries slot `slot` (0-based) of the name `name`.
pub open spec fn frag_record_for(rec: Seq<u8>, name: Seq<u16>, slot: int) -> bool {
    &&& rec_attrs_valid(rec)
    &&& rec_is_lfn(rec)
    &&& rec_lfn(rec).order != 0xe5
    &&& rec_lfn(rec).order & 0x1f == slot + 1
    &&& rec_lfn(rec).units == name.subrange(13 * slot, 13 * (slot + 1))
}

proof fn lemma_reverse_fragment_run(b: Seq<u8>, p: int, name: Seq<u16>, n: int, i: int)
    requires
        0 <= i <= n,
        name.len() == 13 * n,
        0 <= p,
        p + 32 * n <= b.len(),
        forall|m: int|
            0 <= m < n ==> frag_record_for(
                #[trigger] b.subrange(p + 32 * m, p + 32 * m + 32),
                name,
                n - 1 - m,
            ),
    ensures
        spec_next(b, p + 32 * (n - i), lfn_assemble_reverse(name, n, i)) == spec_next(
            b,
            p + 32 * n,
            lfn_assemble_reverse(name, n, 0),
        ),
    decreases i,
{
    if i > 0 {
        let q = p + 32 * (n - i);
        let m = n - i;
        let rec = b.subrange(p + 32 * m, p + 32 * m + 32);
        assert(frag_record_for(rec, name, i - 1));
        assert(lfn_assemble_reverse(name, n, i - 1) == lfn_insert(
            lfn_assemble_reverse(name, n, i),
            i - 1,
            name.subrange(13 * (i - 1), 13 * i),
        ));
        assert(spec_next(b, q, lfn_assemble_reverse(name, n, i)) == spec_next(
            b,
            q + 32,
            lfn_assemble_reverse(name, n, i - 1),
        ));
        lemma_reverse_fragment_run(b, p, name, n, i - 1);
    }
}

/// Law: a long name reconstructs exactly from fragment records supplied in
/// reverse slot order. If the `n` records from position `p` carry slots
/// `n - 1` down to `0` of `name`, one step behaves as if the whole name
/// stood assembled past them; if a surviving short record follows, that
/// entry is yielded with exactly the trimmed `name` as its long name.
pub proof fn lemma_reverse_fragment_records_reconstruct(
    b: Seq<u8>,
    p: int,
    name: Seq<u16>,
    n: int,
)
    requires
        n >= 1,
        name.len() == 13 * n,
        0 <= p,
        p + 32 * n <= b.len(),
        forall|m: int|
            0 <= m < n ==> frag_record_for(
                #[trigger] b.subrange(p + 32 * m, p + 32 * m + 32),
                name,
                n - 1 - m,
            ),
    ensures
        spec_next(b, p, Seq::empty()) == spec_next(b, p + 32 * n, name),
        ({
            let rec = b.subrange(p + 32 * n, p + 32 * n + 32);
            p + 32 * n + 32 <= b.len() && rec_attrs_valid(rec) && !rec_is_lfn(rec)
                && rec_short(rec).name[0] != 0 && rec_short(rec).name[0] != 0xe5 && rec_short(
                rec,
            ).attrs & ATTR_VOLUME_ID != ATTR_VOLUME_ID && ascii_name(rec_short(rec).name)
        }) ==> spec_next(b, p, Seq::empty()) == SpecNextStep::Entry(
            SpecDirEntry {
                short: rec_short(b.subrange(p + 32 * n, p + 32 * n + 32)),
                lfn: lfn_trim(name),
            },
            p + 32 * n + 32,
        ),
{
    assert(lfn_assemble_reverse(name, n, n) == Seq::<u16>::empty());
    crate::lfn::lemma_lfn_reverse_order_reconstruction(name, n);
    lemma_reverse_fragment_run(b, p, name, n, n);
}

/// The full listing of the directory bytes `b`, from the start.
pub open spec fn spec_list(b: Seq<u8>) -> Result<Seq<SpecDirEntry>, SpecErr> {
    spec_list_from(b, 0)
}

/// Whether the directory records from position `p` are a well-formed mix of
/// short entries and long-name fragments: every record has a valid attribute
/// byte, every surviving fragment a nonzero slot index, every emitted short
/// entry an ASCII name, and a terminating record (first name byte 0) is
/// reached before the region ends.
pub open spec fn stream_well_formed(b: Seq<u8>, p: int) -> bool
    decreases b.len() - p,
{
    if p < 0 || p + 32 > b.len() {
        false
    } else {
        let rec = b.subrange(p, p + 32);
        if !rec_attrs_valid(rec) {
            false
        } else if rec_is_lfn(rec) {
            let l = rec_lfn(rec);
            (l.order == 0xe5 || l.order & 0x1f != 0) && stream_well_formed(b, p + 32)
        } else {
            let s = rec_short(rec);
            if s.name[0] == 0 {
                true
            } else if s.name[0] == 0xe5 || s.attrs & ATTR_VOLUME_ID == ATTR_VOLUME_ID {
                stream_well_formed(b, p + 32)
            } else {
                ascii_name(s.name) && stream_well_formed(b, p + 32)
            }
        }
    }
}

proof fn lemma_well_formed_next(b: Seq<u8>, p: int, acc: Seq<u16>)
    requires
        stream_well_formed(b, p),
    ensures
        match spec_next(b, p, acc) {
            SpecNextStep::Fail(_, _) => false,
            SpecNextStep::End(_) => true,
            SpecNextStep::Entry(_, q) => stream_well_formed(b, q),
        },
    decreases b.len() - p,
{
    let rec = b.subrange(p, p + 32);
    if rec_is_lfn(rec) {
        let l = rec_lfn(rec);
        if l.order == 0xe5 {
            lemma_well_formed_next(b, p + 32, Seq::empty());
        } else {
            lemma_well_formed_next(b, p + 32, lfn_insert(acc, (l.order & 0x1f) - 1, l.units));
        }
    } else {
        let s = rec_short(rec);
        if s.name[0] != 0 && (s.name[0] == 0xe5 || s.attrs & ATTR_VOLUME_ID == ATTR_VOLUME_ID) {
            lemma_well_formed_next(b, p + 32, Seq::empty());
        }
    }
}

/// Law: on a directory whose records are a well-formed mix of short entries
/// and long-name fragments, the listing succeeds. Together with the
/// definition of `spec_list_from` this settles what a listing returns there:
/// one entry per short record that is neither deleted nor a volume label and
/// precedes the terminating record, in on-disk order, each carrying its
/// record's fields and the trimmed long name assembled from the fragment run
/// before it.
pub proof fn lemma_well_formed_list_succeeds(b: Seq<u8>, p: int)
    requires
        stream_well_formed(b, p),
    ensures
        spec_list_from(b, p) is Ok,
    decreases b.len() - p,
{
    lemma_well_formed_next(b, p, Seq::empty());
    match spec_next(b, p, Seq::empty()) {
        SpecNextStep::Entry(m, q) => {
            lemma_spec_next_pos(b, p, Seq::empty());
            lemma_well_formed_list_succeeds(b, q);
        },
        _ => {},
    }
}

/// Whether the entry's display name equals the UTF-16 `target` under ASCII
/// case folding.
pub open spec fn entry_name_matches(m: SpecDirEntry, target: Seq<u16>) -> bool {
    spec_eq_ignore_ascii_case16(target, spec_display16(m.short.name, m.lfn))
}

/// The index of the first entry whose display name matches `target`, or
/// `ms.len()` if none does.
pub open spec fn spec_find_index(ms: Seq<SpecDirEntry>, target: Seq<u16>) -> int
    decreases ms.len(),
{
    if ms.len() == 0 {
        0
    } else if entry_name_matches(ms[0], target) {
        0
    } else {
        1 + spec_find_index(ms.skip(1), target)
    }
}

proof fn lemma_find_index(ms: Seq<SpecDirEntry>, target: Seq<u16>)
    ensures
        0 <= spec_find_index(ms, target) <= ms.len(),
        forall|j: int| 0 <= j < spec_find_index(ms, target) ==> !entry_name_matches(ms[j], target),
        spec_find_index(ms, target) < ms.len() ==> entry_name_matches(
            ms[spec_find_index(ms, target)],
            target,
        ),
    decreases ms.len(),
{
    if ms.len() > 0 && !entry_name_matches(ms[0], target) {
        lemma_find_index(ms.skip(1), target);
        assert forall|j: int| 0 <= j < spec_find_index(ms, target) implies !entry_name_matches(
            ms[j],
            target,
        ) by {
            if j > 0 {
                assert(ms.skip(1)[j - 1] == ms[j]);
            }
        }
        assert(spec_find_index(ms, target) < ms.len() ==> ms.skip(1)[spec_find_index(ms, target)
            - 1] == ms[spec_find_index(ms, target)]);
    }
}

/// The first entry of the listing of `b` whose display name matches `name`
/// case-insensitively, or the failure (a failed drain, or `NotFound`).
pub open spec fn spec_find(b: Seq<u8>, name: Seq<char>) -> Result<SpecDirEntry, SpecErr> {
    match spec_list(b) {
        Err(e) => Err(e),
        Ok(ms) => {
            let idx = spec_find_index(ms, spec_utf16(name));
            if idx < ms.len() {
                Ok(ms[idx])
            } else {
                Err(SpecErr::NotFound)
            }
        },
    }
}

/// `s` without its leading `/` characters.
pub open spec fn trim_leading_slashes(s: Seq<char>) -> Seq<char>
    decreases s.len(),
{
    if s.len() > 0 && s[0] == '/' {
        trim_leading_slashes(s.skip(1))
    } else {
        s
    }
}

/// `s` without its trailing `/` characters.
pub open spec fn trim_trailing_slashes(s: Seq<char>) -> Seq<char>
    decreases s.len(),
{
    if s.len() > 0 && s.last() == '/' {
        trim_trailing_slashes(s.drop_last())
    } else {
        s
    }
}

/// `s` without leading and trailing `/` characters.
pub open spec fn spec_trim_slashes(s: Seq<char>) -> Seq<char> {
    trim_trailing_slashes(trim_leading_slashes(s))
}

/// The index of the first `/` in `t`, or `t.len()` if there is none.
pub open spec fn slash_pos(t: Seq<char>) -> int
    decreases t.len(),
{
    if t.len() == 0 {
        0
    } else if t[0] == '/' {
        0
    } else {
        1 + slash_pos(t.skip(1))
    }
}

/// The head component and remaining tail of a slash-delimited path: slashes
/// at both ends are ignored, and the trimmed path splits at its first `/`;
/// the tail is absent if no `/` remains.
pub open spec fn spec_split_path(s: Seq<char>) -> (Seq<char>, Option<Seq<char>>) {
    let t = spec_trim_slashes(s);
    let k = slash_pos(t);
    if k < t.len() {
        (t.take(k), Some(t.skip(k + 1)))
    } else {
        (t, None)
    }
}

proof fn lemma_trim_leading_len(s: Seq<char>)
    ensures
        trim_leading_slashes(s).len() <= s.len(),
    decreases s.len(),
{
    if s.len() > 0 && s[0] == '/' {
        lemma_trim_leading_len(s.skip(1));
    }
}

proof fn lemma_trim_trailing_len(s: Seq<char>)
    ensures
        trim_trailing_slashes(s).len() <= s.len(),
    decreases s.len(),
{
    if s.len() > 0 && s.last() == '/' {
        lemma_trim_trailing_len(s.drop_last());
    }
}

proof fn lemma_slash_pos_range(t: Seq<char>)
    ensures
        0 <= slash_pos(t) <= t.len(),
        forall|j: int| 0 <= j < slash_pos(t) ==> t[j] != '/',
        slash_pos(t) < t.len() ==> t[slash_pos(t)] == '/',
    decreases t.len(),
{
    if t.len() > 0 && t[0] != '/' {
        lemma_slash_pos_range(t.skip(1));
        assert forall|j: int| 0 <= j < slash_pos(t) implies t[j] != '/' by {
            if j > 0 {
                assert(t.skip(1)[j - 1] == t[j]);
            }
        }
        assert(slash_pos(t) < t.len() ==> t.skip(1)[slash_pos(t) - 1] == t[slash_pos(t)]);
    }
}

/// A present tail is strictly shorter than the path it was split from.
pub proof fn lemma_split_path_tail_shorter(s: Seq<char>)
    ensures
        spec_split_path(s).1 matches Some(rest) ==> rest.len() < s.len(),
{
    lemma_trim_leading_len(s);
    lemma_trim_trailing_len(trim_leading_slashes(s));
    lemma_slash_pos_range(spec_trim_slashes(s));
}

/// The raw byte region that a directory reads: the root region, or the
/// region of a subdirectory's first cluster (empty when that cluster has no
/// region).
pub open spec fn source_bytes(fs: SpecFs, src: SpecDirSource) -> Seq<u8> {
    match src {
        SpecDirSource::Root => fs.root,
        SpecDirSource::Cluster(c) => match region_lookup(fs.regions, c) {
            Some(b) => b,
            None => Seq::empty(),
        },
    }
}

/// Where a directory's bytes come from, at the model level.
pub enum SpecDirSource {
    /// The root directory's region.
    Root,
    /// The region of the cluster chain starting at the given cluster.
    Cluster(u32),
}

/// Mathematical model of a directory handle.
#[verifier::ext_equal]
pub struct SpecDir {
    /// The filesystem-wide shared state.
    pub fs: SpecFs,
    /// Where the directory's bytes come from.
    pub source: SpecDirSource,
    /// The iteration cursor, as a byte offset into the region.
    pub pos: nat,
}

/// The raw bytes that the directory `d` iterates over.
pub open spec fn dir_bytes(d: SpecDir) -> Seq<u8> {
    source_bytes(d.fs, d.source)
}

/// Resolution of the slash-delimited `path` against the directory bytes `b`:
/// the head component is looked up case-insensitively in the listing; with a
/// tail present the match must be a directory and resolution recurses into
/// its region; with no tail the match must be a file exactly when
/// `want_file`.
pub open spec fn spec_resolve(fs: SpecFs, b: Seq<u8>, path: Seq<char>, want_file: bool) -> Result<
    SpecDirEntry,
    SpecErr,
>
    decreases path.len()
        via spec_resolve_dec
{
    let (head, rest) = spec_split_path(path);
    match spec_find(b, head) {
        Err(e) => Err(e),
        Ok(m) => match rest {
            Some(r) => if !spec_is_dir(m.short) {
                Err(SpecErr::InvalidInput)
            } else {
                spec_resolve(
                    fs,
                    source_bytes(fs, SpecDirSource::Cluster(spec_cluster(m.short))),
                    r,
                    want_file,
                )
            },
            None => if want_file == !spec_is_dir(m.short) {
                Ok(m)
            } else {
                Err(SpecErr::InvalidInput)
            },
        },
    }
}

#[via_fn]
proof fn spec_resolve_dec(fs: SpecFs, b: Seq<u8>, path: Seq<char>, want_file: bool) {
    lemma_split_path_tail_shorter(path);
}

/// A resolved directory entry: one short record plus the long name
/// reconstructed from the fragments that preceded it, and the shared
/// filesystem state needed to open it later.
#[derive(Debug)]
pub struct FatDirEntry<'a> {
    pub(crate) data: FatDirFileEntryData,
    pub(crate) lfn: Vec<u16>,
    pub(crate) state: &'a FatSharedState,
}

impl<'a> View for FatDirEntry<'a> {
    type V = SpecDirEntry;

    closed spec fn view(&self) -> SpecDirEntry {
        SpecDirEntry {
            short: SpecShortEntry {
                name: self.data.name@,
                attrs: self.data.attrs.bits,
                reserved: self.data.reserved_0,
                create_time_fine: self.data.create_time_0,
                create_time: self.data.create_time_1,
                create_date: self.data.create_date,
                access_date: self.data.access_date,
                cluster_hi: self.data.first_cluster_hi,
                modify_time: self.data.modify_time,
                modify_date: self.data.modify_date,
                cluster_lo: self.data.first_cluster_lo,
                size: self.data.size,
            },
            lfn: self.lfn@,
        }
    }
}

impl<'a> FatDirEntry<'a> {
    /// The filesystem-wide state this entry holds a shared reference to.
    pub closed spec fn shared_state(&self) -> SpecFs {
        self.state@
    }

    #[verifier::type_invariant]
    spec fn wf(&self) -> bool {
        self.data.name@.len() == 11 && ascii_name(self.data.name@)
    }

    /// The short 8.3 name, as displayed: trimmed base, and a dot plus the
    /// trimmed extension if the extension is not empty.
    pub fn short_file_name(&self) -> (r: String)
        ensures
            r@ == spec_short_name_chars(self@.short.name),
    {
        proof {
            use_type_invariant(self);
            lemma_short_name_ascii(self.data.name@);
        }
        let b = short_name_bytes(&self.data.name);
        let r = string_from_ascii(b);
        proof {
            assert(r@ =~= spec_short_name_chars(self@.short.name));
        }
        r
    }

    /// The display name: the reconstructed long name if fragments preceded
    /// this entry, else the short 8.3 name.
    pub fn file_name(&self) -> (r: String)
        ensures
            self@.lfn.len() > 0 ==> r@ == utf16_lossy_of(self@.lfn),
            self@.lfn.len() > 0 && (forall|i: int|
                0 <= i < self@.lfn.len() ==> !(0xd800 <= #[trigger] self@.lfn[i] < 0xe000)) ==> {
                &&& r@.len() == self@.lfn.len()
                &&& forall|i: int| 0 <= i < self@.lfn.len() ==> r@[i] as u32 == self@.lfn[i] as u32
            },
            self@.lfn.len() == 0 ==> r@ == spec_short_name_chars(self@.short.name),
    {
        if self.lfn.len() > 0 {
            string_from_utf16_lossy(&self.lfn)
        } else {
            self.short_file_name()
        }
    }

    /// The entry's attribute flags.
    pub fn attributes(&self) -> (r: FatFileAttributes)
        ensures
            r.bits == self@.short.attrs,
    {
        self.data.attrs
    }

    /// Whether the entry is a directory.
    pub fn is_dir(&self) -> (r: bool)
        ensures
            r == spec_is_dir(self@.short),
    {
        self.data.attrs.contains(ATTR_DIRECTORY)
    }

    /// Whether the entry is a file.
    pub fn is_file(&self) -> (r: bool)
        ensures
            r == !spec_is_dir(self@.short),
    {
        !self.is_dir()
    }

    /// The 32-bit cluster reference combined from its stored high and low
    /// halves.
    pub fn first_cluster(&self) -> (r: u32)
        ensures
            r == spec_cluster(self@.short),
    {
        let hi = self.data.first_cluster_hi;
        let lo = self.data.first_cluster_lo;
        let r = ((hi as u32) << 16u32) | (lo as u32);
        assert(r == hi * 0x10000 + lo) by (bit_vector)
            requires
                r == ((hi as u32) << 16u32) | (lo as u32),
        ;
        r
    }

    /// A file handle for this entry; a directory entry is a usage error and
    /// yields `InvalidInput`.
    pub fn to_file<E>(&self) -> (r: Result<FatFile, Error<E>>)
        ensures
            spec_is_dir(self@.short) ==> (r matches Err(e) && e == Error::<E>::InvalidInput),
            !spec_is_dir(self@.short) ==> (r matches Ok(f) && f.first_cluster == spec_cluster(
                self@.short,
            ) && f.size == Some(self@.short.size)),
    {
        if self.is_dir() {
            return Err(Error::InvalidInput);
        }
        Ok(FatFile::new(self.first_cluster(), Some(self.data.size)))
    }

    /// A directory handle for this entry; a file entry is a usage error and
    /// yields `InvalidInput`.
    pub fn to_dir<E>(&self) -> (r: Result<FatDir<'a>, Error<E>>)
        ensures
            !spec_is_dir(self@.short) ==> (r matches Err(e) && e == Error::<E>::InvalidInput),
            spec_is_dir(self@.short) ==> (r matches Ok(d) && d@ == (SpecDir {
                fs: self.shared_state(),
                source: SpecDirSource::Cluster(spec_cluster(self@.short)),
                pos: 0,
            })),
    {
        if !self.is_dir() {
            return Err(Error::InvalidInput);
        }
        Ok(FatDir { rdr: FatDirReader::File(self.first_cluster()), pos: 0, state: self.state })
    }

    /// The file's byte length (0 for directories on well-formed media).
    pub fn len(&self) -> (r: u64)
        ensures
            r == self@.short.size as u64,
    {
        self.data.size as u64
    }

    /// The creation date and time, decoded from the packed DOS fields.
    pub fn created(&self) -> (t: FatDateTime)
        ensures
            t == spec_decode_date_time(self@.short.create_date, self@.short.create_time),
    {
        convert_date_time(self.data.create_date, self.data.create_time_1)
    }

    /// The access date, decoded from the packed DOS field.
    pub fn accessed(&self) -> (d: FatDate)
        ensures
            d == spec_decode_date(self@.short.access_date),
    {
        convert_date(self.data.access_date)
    }

    /// The modification date and time, decoded from the packed DOS fields.
    pub fn modified(&self) -> (t: FatDateTime)
        ensures
            t == spec_decode_date_time(self@.short.modify_date, self@.short.modify_time),
    {
        convert_date_time(self.data.modify_date, self.data.modify_time)
    }
}

proof fn lemma_trim_spaces_prefix(s: Seq<u8>)
    ensures
        trim_trailing_spaces(s).len() <= s.len(),
        forall|i: int|
            0 <= i < trim_trailing_spaces(s).len() ==> trim_trailing_spaces(s)[i] == s[i],
    decreases s.len(),
{
    if s.len() > 0 && s.last() == 0x20u8 {
        lemma_trim_spaces_prefix(s.drop_last());
        assert(forall|i: int| 0 <= i < s.len() - 1 ==> s.drop_last()[i] == s[i]);
    }
}

proof fn lemma_short_name_ascii(name: Seq<u8>)
    requires
        name.len() == 11,
        ascii_name(name),
    ensures
        ascii_name(spec_short_name_bytes(name)),
{
    lemma_trim_spaces_prefix(name.subrange(0, 8));
    lemma_trim_spaces_prefix(name.subrange(8, 11));
    let base = trim_trailing_spaces(name.subrange(0, 8));
    let ext = trim_trailing_spaces(name.subrange(8, 11));
    let b = spec_short_name_bytes(name);
    assert forall|i: int| 0 <= i < b.len() implies b[i] < 0x80 by {
        if ext.len() > 0 {
            let mid = base + seq![0x2eu8];
            assert(b == mid + ext);
            if i < base.len() {
                assert(b[i] == mid[i]);
                assert(mid[i] == base[i]);
                assert(base[i] == name.subrange(0, 8)[i]);
            } else if i == base.len() {
                assert(b[i] == mid[i]);
            } else {
                assert(b[i] == ext[i - mid.len()]);
                assert(ext[i - mid.len()] == name.subrange(8, 11)[i - mid.len()]);
            }
        } else {
            assert(b[i] == base[i]);
            assert(base[i] == name.subrange(0, 8)[i]);
        }
    }
}

/// Where a directory's bytes come from: the root region, or a subdirectory
/// opened through a file handle over its cluster chain.
#[derive(Debug)]
pub(crate) enum FatDirReader {
    /// The root directory's raw region.
    Root,
    /// The region of the cluster chain starting at the given cluster.
    File(u32),
}

/// A restartable iterator over one directory's raw record stream, and the
/// entry point of path resolution.
#[derive(Debug)]
pub struct FatDir<'a> {
    pub(crate) rdr: FatDirReader,
    pub(crate) pos: usize,
    pub(crate) state: &'a FatSharedState,
}

impl<'a> View for FatDir<'a> {
    type V = SpecDir;

    closed spec fn view(&self) -> SpecDir {
        SpecDir {
            fs: self.state@,
            source: match self.rdr {
                FatDirReader::Root => SpecDirSource::Root,
                FatDirReader::File(c) => SpecDirSource::Cluster(c),
            },
            pos: self.pos as nat,
        }
    }
}

impl FatSharedState {
    /// A directory handle over the root directory's region, positioned at
    /// its start.
    pub fn root_dir<'a>(&'a self) -> (d: FatDir<'a>)
        ensures
            d@ == (SpecDir { fs: self@, source: SpecDirSource::Root, pos: 0 }),
    {
        FatDir { rdr: FatDirReader::Root, pos: 0, state: self }
    }
}

impl<'a> FatDir<'a> {
    /// Repositions the iteration cursor to the start of the directory's byte
    /// region, making the iterator restartable from the beginning.
    pub fn rewind(&mut self)
        ensures
            final(self)@ == (SpecDir { pos: 0, ..old(self)@ }),
    {
        self.pos = 0;
    }

    /// Consumes records from the cursor until one yields a resolved entry
    /// (`Some(Ok(..))`), the terminating record is reached (`None`), or
    /// decoding fails (`Some(Err(..))`), as `spec_next` states.
    pub fn next<E>(&mut self) -> (r: Option<Result<FatDirEntry<'a>, Error<E>>>)
        ensures
            final(self)@.fs == old(self)@.fs,
            final(self)@.source == old(self)@.source,
            match spec_next(dir_bytes(old(self)@), old(self)@.pos as int, Seq::empty()) {
                SpecNextStep::Entry(m, q) => (r matches Some(entry) && entry matches Ok(e) && e@
                    == m && e.shared_state() == old(self)@.fs) && final(self)@.pos == q,
                SpecNextStep::End(q) => r is None && final(self)@.pos == q,
                SpecNextStep::Fail(f, q) => (r matches Some(entry) && entry matches Err(err)
                    && err == spec_err_to_error::<E>(f)) && final(self)@.pos == q,
            },
    {
        let fs = self.state;
        let ghost b = dir_bytes(self@);
        proof {
            lemma_fs_view(fs);
        }
        let bytes: &Vec<u8> = match &self.rdr {
            FatDirReader::Root => &fs.root,
            FatDirReader::File(c) => {
                match region_bytes_ref(fs, *c) {
                    Some(v) => v,
                    None => {
                        proof {
                            assert(b =~= Seq::<u8>::empty());
                        }
                        self.pos = 0;
                        return Some(Err(Error::UnexpectedEof));
                    },
                }
            },
        };
        let mut lfn_buf: Vec<u16> = Vec::new();
        loop
            invariant
                self.state == old(self).state,
                fs == old(self).state,
                self.rdr == old(self).rdr,
                bytes@ == b,
                b == dir_bytes(old(self)@),
                lfn_buf@.len() <= LFN_BUF_MAX,
                spec_next(b, self.pos as int, lfn_buf@) == spec_next(
                    b,
                    old(self)@.pos as int,
                    Seq::empty(),
                ),
            decreases b.len() - self.pos,
        {
            let pos = self.pos;
            if pos > bytes.len() || bytes.len() - pos < 32 {
                self.pos = bytes.len();
                return Some(Err(Error::UnexpectedEof));
            }
            let ghost rec = b.subrange(pos as int, pos + 32);
            let ghost acc0 = lfn_buf@;
            let parsed = parse_dir_entry_data(bytes, pos);
            self.pos = pos + 32;
            match parsed {
                None => {
                    return Some(Err(Error::CorruptedFileSystem));
                },
                Some(FatDirEntryData::File(data)) => {
                    proof {
                        assert(data.name@[0] == rec_short(rec).name[0]);
                    }
                    if data.name[0] == 0 {
                        proof {
                            assert(spec_next(b, pos as int, acc0) == SpecNextStep::End(pos + 32));
                        }
                        return None;
                    }
                    if data.name[0] == 0xe5 || data.attrs.contains(ATTR_VOLUME_ID) {
                        proof {
                            assert(spec_next(b, pos as int, acc0) == spec_next(
                                b,
                                pos + 32,
                                Seq::empty(),
                            ));
                        }
                        lfn_buf.clear();
                    } else if !is_ascii_bytes(&data.name) {
                        proof {
                            assert(spec_next(b, pos as int, acc0) == SpecNextStep::Fail(
                                SpecErr::Corrupt,
                                pos + 32,
                            ));
                        }
                        return Some(Err(Error::CorruptedFileSystem));
                    } else {
                        proof {
                            assert(spec_next(b, pos as int, acc0) == SpecNextStep::Entry(
                                SpecDirEntry { short: rec_short(rec), lfn: lfn_trim(acc0) },
                                pos + 32,
                            ));
                        }
                        lfn_buf_trim(&mut lfn_buf);
                        let e = FatDirEntry { data, lfn: lfn_buf, state: fs };
                        proof {
                            assert(e@.short =~= rec_short(rec));
                            assert(e@ == SpecDirEntry { short: rec_short(rec), lfn: lfn_trim(acc0) });
                        }
                        return Some(Ok(e));
                    }
                },
                Some(FatDirEntryData::Lfn(data)) => {
                    if data.order == 0xe5 {
                        proof {
                            assert(spec_next(b, pos as int, acc0) == spec_next(
                                b,
                                pos + 32,
                                Seq::empty(),
                            ));
                        }
                        lfn_buf.clear();
                    } else {
                        let ord = data.order;
                        let slot = ord & 0x1f;
                        assert(slot < 32) by (bit_vector)
                            requires
                                slot == ord & 0x1f,
                        ;
                        if slot == 0 {
                            proof {
                                assert(spec_next(b, pos as int, acc0) == SpecNextStep::Fail(
                                    SpecErr::Corrupt,
                                    pos + 32,
                                ));
                            }
                            return Some(Err(Error::CorruptedFileSystem));
                        }
                        let idx = (slot - 1) as usize;
                        proof {
                            assert(data.units@ == rec_lfn(rec).units);
                            assert(spec_next(b, pos as int, acc0) == spec_next(
                                b,
                                pos + 32,
                                lfn_insert(acc0, idx as int, data.units@),
                            ));
                        }
                        lfn_buf_insert(&mut lfn_buf, idx, &data.units);
                    }
                },
            }
        }
    }
}

/// The models of a sequence of resolved entries.
pub open spec fn entry_views<'a>(es: Seq<FatDirEntry<'a>>) -> Seq<SpecDirEntry> {
    Seq::new(es.len(), |i: int| es[i]@)
}

proof fn lemma_slash_pos_at(t: Seq<char>, i: int)
    requires
        0 <= i <= t.len(),
        forall|j: int| 0 <= j < i ==> t[j] != '/',
        i < t.len() ==> t[i] == '/',
    ensures
        slash_pos(t) == i,
    decreases t.len(),
{
    if i > 0 {
        assert(forall|j: int| 0 <= j < i - 1 ==> t.skip(1)[j] == t[j + 1]);
        assert(i - 1 < t.skip(1).len() ==> t.skip(1)[i - 1] == t[i]);
        lemma_slash_pos_at(t.skip(1), i - 1);
    }
}

/// Law: a short record whose first name byte is 0 terminates iteration at
/// that record, whatever bytes remain in the region after it.
pub proof fn lemma_terminator_ends_iteration(b: Seq<u8>, p: int, acc: Seq<u16>)
    requires
        0 <= p,
        p + 32 <= b.len(),
        rec_attrs_valid(b.subrange(p, p + 32)),
        !rec_is_lfn(b.subrange(p, p + 32)),
        b.subrange(p, p + 32)[0] == 0,
    ensures
        spec_next(b, p, acc) == SpecNextStep::End(p + 32),
        spec_list_from(b, p) == Ok::<Seq<SpecDirEntry>, SpecErr>(Seq::empty()),
{
    assert(rec_short(b.subrange(p, p + 32)).name[0] == b.subrange(p, p + 32)[0]);
}

/// Law: rewinding and listing one directory twice yields identical
/// sequences: a listing depends only on the directory's byte region, and
/// neither `rewind` nor `list` changes that region.
pub proof fn lemma_list_repeatable(d1: SpecDir, d2: SpecDir)
    requires
        d1.fs == d2.fs,
        d1.source == d2.source,
    ensures
        spec_list(dir_bytes(d1)) == spec_list(dir_bytes(d2)),
{
}

impl<'a> FatDir<'a> {
    /// Splits a slash-delimited path, after ignoring slashes at both ends,
    /// into its head component and the remaining tail (absent if no further
    /// `/` exists).
    pub fn split_path<'c>(path: &'c str) -> (r: (&'c str, Option<&'c str>))
        ensures
            r.0@ == spec_split_path(path@).0,
            match (r.1, spec_split_path(path@).1) {
                (Some(rt), Some(tt)) => rt@ == tt,
                (None, None) => true,
                _ => false,
            },
    {
        let n = path.unicode_len();
        let mut a: usize = 0;
        proof {
            assert(path@.skip(0) =~= path@);
        }
        while a < n && path.get_char(a) == '/'
            invariant
                a <= n,
                n == path@.len(),
                trim_leading_slashes(path@) == trim_leading_slashes(path@.skip(a as int)),
            decreases n - a,
        {
            proof {
                assert(path@.skip(a as int).skip(1) =~= path@.skip(a + 1));
            }
            a = a + 1;
        }
        let ghost lead = path@.skip(a as int);
        proof {
            if a == n {
                assert(lead =~= Seq::<char>::empty());
            }
            assert(trim_leading_slashes(path@) == lead);
        }
        let mut bnd: usize = n;
        proof {
            assert(lead.take(n - a) =~= lead);
        }
        while bnd > a && path.get_char(bnd - 1) == '/'
            invariant
                a <= bnd <= n,
                n == path@.len(),
                lead == path@.skip(a as int),
                trim_trailing_slashes(lead) == trim_trailing_slashes(lead.take(bnd - a)),
            decreases bnd,
        {
            proof {
                assert(lead.take(bnd - a).drop_last() =~= lead.take(bnd - 1 - a));
                assert(lead.take(bnd - a).last() == path@[bnd - 1]);
            }
            bnd = bnd - 1;
        }
        let ghost t = lead.take(bnd - a);
        proof {
            if bnd > a {
                assert(t.last() == path@[bnd - 1]);
            } else {
                assert(t =~= Seq::<char>::empty());
            }
            assert(spec_trim_slashes(path@) == t);
            assert(t =~= path@.subrange(a as int, bnd as int));
        }
        let mut k: usize = a;
        while k < bnd && path.get_char(k) != '/'
            invariant
                a <= k <= bnd <= n,
                n == path@.len(),
                t == path@.subrange(a as int, bnd as int),
                forall|j: int| 0 <= j < k - a ==> t[j] != '/',
            decreases bnd - k,
        {
            proof {
                assert(t[k - a] == path@[k as int]);
            }
            k = k + 1;
        }
        if k < bnd {
            proof {
                assert(t[k - a] == path@[k as int]);
                lemma_slash_pos_at(t, k - a);
            }
            let head = path.substring_char(a, k);
            let rest = path.substring_char(k + 1, bnd);
            proof {
                assert(head@ =~= t.take(k - a));
                assert(rest@ =~= t.skip(k - a + 1));
            }
            (head, Some(rest))
        } else {
            proof {
                lemma_slash_pos_at(t, bnd - a);
            }
            let head = path.substring_char(a, bnd);
            proof {
                assert(head@ =~= t);
            }
            (head, None)
        }
    }

    /// Rewinds, then drains the whole directory into an ordered sequence of
    /// resolved entries, in on-disk order; any decode failure mid-drain
    /// aborts the whole call.
    pub fn list<E>(&mut self) -> (r: Result<Vec<FatDirEntry<'a>>, Error<E>>)
        ensures
            final(self)@.fs == old(self)@.fs,
            final(self)@.source == old(self)@.source,
            match spec_list(dir_bytes(old(self)@)) {
                Ok(ms) => (r matches Ok(es) && entry_views(es@) == ms && forall|i: int|
                    0 <= i < es@.len() ==> (#[trigger] es@[i]).shared_state() == old(self)@.fs),
                Err(f) => (r matches Err(e) && e == spec_err_to_error::<E>(f)),
            },
    {
        self.rewind();
        let ghost b = dir_bytes(self@);
        let mut entries: Vec<FatDirEntry<'a>> = Vec::new();
        loop
            invariant
                self@.fs == old(self)@.fs,
                self@.source == old(self)@.source,
                b == dir_bytes(old(self)@),
                forall|i: int|
                    0 <= i < entries@.len() ==> (#[trigger] entries@[i]).shared_state() == old(
                        self,
                    )@.fs,
                match spec_list(b) {
                    Ok(all) => spec_list_from(b, self@.pos as int) matches Ok(rest) && all
                        == entry_views(entries@) + rest,
                    Err(f) => spec_list_from(b, self@.pos as int) matches Err(f2) && f2 == f,
                },
            decreases b.len() - self@.pos,
        {
            let ghost p0 = self@.pos as int;
            proof {
                lemma_spec_next_pos(b, p0, Seq::empty());
            }
            let n = self.next::<E>();
            match n {
                None => {
                    proof {
                        assert(spec_list_from(b, p0) == Ok::<Seq<SpecDirEntry>, SpecErr>(Seq::empty()));
                        assert(entry_views(entries@) + Seq::<SpecDirEntry>::empty()
                            =~= entry_views(entries@));
                    }
                    return Ok(entries);
                },
                Some(Ok(e)) => {
                    let ghost m = e@;
                    proof {
                        assert(spec_list_from(b, p0) == match spec_list_from(
                            b,
                            self@.pos as int,
                        ) {
                            Ok(rest) => Ok(seq![m] + rest),
                            Err(f) => Err(f),
                        });
                    }
                    let ghost before = entries@;
                    entries.push(e);
                    proof {
                        assert(entry_views(before) + (seq![m] + spec_list_from(
                            b,
                            self@.pos as int,
                        )->Ok_0) =~= entry_views(entries@) + spec_list_from(
                            b,
                            self@.pos as int,
                        )->Ok_0);
                    }
                },
                Some(Err(err)) => {
                    proof {
                        assert(spec_list_from(b, p0) matches Err(_));
                    }
                    return Err(err);
                },
            }
        }
    }

    /// The first entry of the directory whose display name equals `name`
    /// under ASCII-case-insensitive comparison, or `NotFound`.
    pub fn find_entry<E>(&mut self, name: &str) -> (r: Result<FatDirEntry<'a>, Error<E>>)
        ensures
            final(self)@.fs == old(self)@.fs,
            final(self)@.source == old(self)@.source,
            match spec_find(dir_bytes(old(self)@), name@) {
                Ok(m) => (r matches Ok(e) && e@ == m && e.shared_state() == old(self)@.fs),
                Err(f) => (r matches Err(err) && err == spec_err_to_error::<E>(f)),
            },
    {
        let ghost b = dir_bytes(self@);
        let ghost tgt = spec_utf16(name@);
        let target = encode_utf16_str(name);
        let mut entries = match self.list::<E>() {
            Ok(es) => es,
            Err(err) => {
                return Err(err);
            },
        };
        let ghost ms = entry_views(entries@);
        proof {
            lemma_find_index(ms, tgt);
        }
        let mut i: usize = 0;
        while i < entries.len()
            invariant
                i <= entries@.len(),
                target@ == tgt,
                tgt == spec_utf16(name@),
                ms == entry_views(entries@),
                spec_list(b) == Ok::<Seq<SpecDirEntry>, SpecErr>(ms),
                self@.fs == old(self)@.fs,
                self@.source == old(self)@.source,
                b == dir_bytes(old(self)@),
                forall|j: int|
                    0 <= j < entries@.len() ==> (#[trigger] entries@[j]).shared_state() == old(
                        self,
                    )@.fs,
                forall|j: int| 0 <= j < i ==> !entry_name_matches(ms[j], tgt),
            decreases entries@.len() - i,
        {
            let e = &entries[i];
            proof {
                use_type_invariant(e);
                assert(e@ == ms[i as int]);
            }
            let units = display_name_units(&e.data.name, &e.lfn);
            if eq_ignore_ascii_case16(&target, &units) {
                proof {
                    lemma_find_index(ms, tgt);
                    assert(spec_find_index(ms, tgt) == i as int);
                }
                let found = entries.remove(i);
                proof {
                    assert(spec_find(b, name@) == Ok::<SpecDirEntry, SpecErr>(ms[i as int]));
                }
                return Ok(found);
            }
            i = i + 1;
        }
        proof {
            lemma_find_index(ms, tgt);
            assert(spec_find_index(ms, tgt) == ms.len());
        }
        Err(Error::NotFound)
    }

    /// Resolves `path` to a subdirectory handle: each component is looked up
    /// case-insensitively, every intermediate match must be a directory, and
    /// so must the final one.
    pub fn open_dir<E>(&mut self, path: &str) -> (r: Result<FatDir<'a>, Error<E>>)
        ensures
            final(self)@.fs == old(self)@.fs,
            final(self)@.source == old(self)@.source,
            match spec_resolve(old(self)@.fs, dir_bytes(old(self)@), path@, false) {
                Ok(m) => (r matches Ok(d) && d@ == (SpecDir {
                    fs: old(self)@.fs,
                    source: SpecDirSource::Cluster(spec_cluster(m.short)),
                    pos: 0,
                })),
                Err(f) => (r matches Err(err) && err == spec_err_to_error::<E>(f)),
            },
        decreases path@.len(),
    {
        let (name, rest_opt) = Self::split_path(path);
        let e = match self.find_entry::<E>(name) {
            Ok(e) => e,
            Err(err) => {
                return Err(err);
            },
        };
        match rest_opt {
            Some(rest) => {
                let mut d = match e.to_dir::<E>() {
                    Ok(d) => d,
                    Err(err) => {
                        return Err(err);
                    },
                };
                proof {
                    lemma_split_path_tail_shorter(path@);
                }
                d.open_dir::<E>(rest)
            },
            None => e.to_dir(),
        }
    }

    /// Resolves `path` to a file handle: each component is looked up
    /// case-insensitively, every intermediate match must be a directory, and
    /// the final one must be a file.
    pub fn open_file<E>(&mut self, path: &str) -> (r: Result<FatFile, Error<E>>)
        ensures
            final(self)@.fs == old(self)@.fs,
            final(self)@.source == old(self)@.source,
            match spec_resolve(old(self)@.fs, dir_bytes(old(self)@), path@, true) {
                Ok(m) => (r matches Ok(f) && f.first_cluster == spec_cluster(m.short) && f.size
                    == Some(m.short.size)),
                Err(f) => (r matches Err(err) && err == spec_err_to_error::<E>(f)),
            },
        decreases path@.len(),
    {
        let (name, rest_opt) = Self::split_path(path);
        let e = match self.find_entry::<E>(name) {
            Ok(e) => e,
            Err(err) => {
                return Err(err);
            },
        };
        match rest_opt {
            Some(rest) => {
                let mut d = match e.to_dir::<E>() {
                    Ok(d) => d,
                    Err(err) => {
                        return Err(err);
                    },
                };
                proof {
                    lemma_split_path_tail_shorter(path@);
                }
                d.open_file::<E>(rest)
            },
            None => e.to_file(),
        }
    }
}

} // verus!