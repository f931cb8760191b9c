//! Archives in the trash: how a packed path is named and described, and what
//! happens to each entry of an archive when it is restored.
//!
//! Packing (tar and zstd) and unpacking touch the disk and stay outside; the
//! names, the record of a packed path and the per-entry decisions are here.
use vstd::prelude::*;
use crate::config::CoverMode;
use crate::paths::{join, spec_join};
use crate::size::{humanized_size, spec_humanized_size};
use crate::text::{decimal, digit_char, is_digit, lemma_decimal, push_char, push_decimal};

verus! {

// ---------------------------------------------------------------------------
// Time
// ---------------------------------------------------------------------------

/// `std::time::SystemTime`, held as it is.
#[verifier::external_type_specification]
#[verifier::external_body]
pub struct ExSystemTime(std::time::SystemTime);

/// Reads the system clock with `SystemTime::now`. Trusted; nothing is
/// promised of the value, which depends on the moment of the call.
#[verifier::external_body]
fn system_now() -> std::time::SystemTime {
    std::time::SystemTime::now()
}

/// `SystemTime::duration_since(UNIX_EPOCH)`: the time elapsed since 1970,
/// or none when the clock reads earlier. Trusted; nothing is promised of the
/// value, which depends on the time given.
#[verifier::external_body]
fn since_unix_epoch(t: std::time::SystemTime) -> Option<core::time::Duration> {
    t.duration_since(std::time::UNIX_EPOCH).ok()
}

/// `Duration::as_secs`: the whole seconds of a duration. Trusted; the
/// duration is opaque here, so nothing is stated of the value.
#[verifier::external_body]
fn duration_secs(d: &core::time::Duration) -> u64 {
    d.as_secs()
}

/// `Duration::subsec_nanos`: the nanoseconds beyond the whole seconds.
/// Trusted: as std documents, the value is always below one billion.
#[verifier::external_body]
fn duration_subsec_nanos(d: &core::time::Duration) -> (n: u32)
    ensures
        n < 1_000_000_000,
{
    d.subsec_nanos()
}

/// The whole milliseconds of a duration of `secs` seconds and `nanos`
/// nanoseconds (`Duration::as_millis`).
pub fn millis_of(secs: u64, nanos: u32) -> (ms: u128)
    ensures
        ms == secs * 1000 + nanos / 1_000_000,
{
    (secs as u128) * 1000 + (nanos / 1_000_000) as u128
}

/// A millisecond count as a `u64` timestamp (`as u64`, keeping the low 64
/// bits).
pub fn timestamp_of_millis(ms: u128) -> (t: u64)
    ensures
        t == ms as u64,
{
    ms as u64
}

/// Current time as a millisecond UNIX timestamp, or none when the system
/// clock reads before 1970. The value depends on the moment of the call.
pub fn timestamp_ms() -> Option<u64> {
    let now = system_now();
    match since_unix_epoch(now) {
        Some(d) => Some(timestamp_of_millis(millis_of(duration_secs(&d), duration_subsec_nanos(&d)))),
        None => None,
    }
}

// ---------------------------------------------------------------------------
// Content-addressed names
// ---------------------------------------------------------------------------

/// The BLAKE3 hash (32 bytes) of `data`, as `blake3::hash` computes it.
pub uninterp spec fn blake3_hash(data: Seq<u8>) -> Seq<u8>;

/// Calls `blake3::hash(data)` and returns the 32 bytes of the hash. Trusted:
/// the contract claims only that the result is `blake3_hash` of the bytes,
/// that is, that it depends on `data` alone; the hash function itself is not
/// stated here.
#[verifier::external_body]
fn blake3_digest(data: &[u8]) -> (d: [u8; 32])
    ensures
        d@ == blake3_hash(data@),
{
    *blake3::hash(data).as_bytes()
}

/// A hexadecimal digit in lower case.
pub open spec fn hex_digit(n: nat) -> char {
    if n < 10 {
        digit_char(n)
    } else {
        ((n - 10 + 97) as u8) as char
    }
}

/// Bytes in lower-case hexadecimal, two digits per byte.
pub open spec fn hex_lower(bytes: Seq<u8>) -> Seq<char>
    decreases bytes.len(),
{
    if bytes.len() == 0 {
        Seq::empty()
    } else {
        hex_lower(bytes.drop_last()) + seq![
            hex_digit(bytes.last() as nat / 16),
            hex_digit(bytes.last() as nat % 16),
        ]
    }
}

fn push_hex_digit(s: &mut String, n: u8)
    requires
        n < 16,
    ensures
        final(s)@ == old(s)@.push(hex_digit(n as nat)),
{
    if n < 10 {
        push_char(s, (n + 48u8) as char);
    } else {
        push_char(s, (n - 10 + 97u8) as char);
    }
}

/// The file name of an archive: the BLAKE3 hash of its bytes in hex, then
/// `.bak`.
pub open spec fn spec_archive_name(archive: Seq<u8>) -> Seq<char> {
    hex_lower(blake3_hash(archive)) + ".bak"@
}

/// The archive name for a given hash: the hash in lower-case hex, then
/// `.bak`.
pub fn name_for_digest(digest: &[u8]) -> (name: String)
    ensures
        name@ == hex_lower(digest@) + ".bak"@,
{
    let mut s = String::new();
    let mut i: usize = 0;
    while i < digest.len()
        invariant
            0 <= i <= digest@.len(),
            s@ == hex_lower(digest@.take(i as int)),
        decreases digest.len() - i,
    {
        let b = digest[i];
        push_hex_digit(&mut s, b / 16);
        push_hex_digit(&mut s, b % 16);
        proof {
            let t = digest@.take(i + 1);
            assert(t.drop_last() =~= digest@.take(i as int));
            assert(t.last() == b);
            assert(s@ =~= hex_lower(t));
        }
        i = i + 1;
    }
    assert(digest@.take(digest@.len() as int) =~= digest@);
    push_char(&mut s, '.');
    push_char(&mut s, 'b');
    push_char(&mut s, 'a');
    push_char(&mut s, 'k');
    proof {
        reveal_strlit(".bak");
    }
    assert(s@ =~= hex_lower(digest@) + ".bak"@);
    s
}

/// Names an archive by the hash of its own bytes, so that the same bytes
/// always get the same name.
pub fn archive_name(archive: &[u8]) -> (name: String)
    ensures
        name@ == spec_archive_name(archive@),
{
    let digest = blake3_digest(archive);
    name_for_digest(&digest)
}

proof fn lemma_hex_len(x: Seq<u8>)
    ensures
        hex_lower(x).len() == 2 * x.len(),
    decreases x.len(),
{
    if x.len() > 0 {
        lemma_hex_len(x.drop_last());
    }
}

proof fn lemma_hex_digit_code(n: nat)
    requires
        n < 16,
    ensures
        hex_digit(n) as int == if n < 10 { n + 48 } else { n + 87 },
{
}

/// Different bytes are written as different hex.
proof fn lemma_hex_injective(x: Seq<u8>, y: Seq<u8>)
    requires
        hex_lower(x) == hex_lower(y),
    ensures
        x == y,
    decreases x.len(),
{
    lemma_hex_len(x);
    lemma_hex_len(y);
    if x.len() == 0 {
        assert(x =~= y);
    } else {
        let xd = x.drop_last();
        let yd = y.drop_last();
        let hx = hex_lower(x);
        lemma_hex_len(xd);
        lemma_hex_len(yd);
        let n = hx.len() as int;
        assert(hex_lower(xd) =~= hx.subrange(0, n - 2));
        assert(hex_lower(yd) =~= hex_lower(y).subrange(0, n - 2));
        lemma_hex_injective(xd, yd);
        let a = x.last() as nat;
        let b = y.last() as nat;
        assert(hx[n - 2] == hex_digit(a / 16));
        assert(hex_lower(y)[n - 2] == hex_digit(b / 16));
        assert(hx[n - 1] == hex_digit(a % 16));
        assert(hex_lower(y)[n - 1] == hex_digit(b % 16));
        lemma_hex_digit_code(a / 16);
        lemma_hex_digit_code(b / 16);
        lemma_hex_digit_code(a % 16);
        lemma_hex_digit_code(b % 16);
        assert(a / 16 == b / 16);
        assert(a % 16 == b % 16);
        assert(a == 16 * (a / 16) + a % 16);
        assert(b == 16 * (b / 16) + b % 16);
        assert(x =~= xd.push(x.last()));
        assert(y =~= yd.push(y.last()));
    }
}

/// Two archives get the same name exactly when their hashes are equal: equal
/// bytes share one file, and different hashes never collide on a name.
pub proof fn lemma_archive_names_equal_iff_hashes(a: Seq<u8>, b: Seq<u8>)
    ensures
        (spec_archive_name(a) == spec_archive_name(b)) == (blake3_hash(a) == blake3_hash(b)),
{
    let x = hex_lower(blake3_hash(a));
    let y = hex_lower(blake3_hash(b));
    let suffix = ".bak"@;
    if spec_archive_name(a) == spec_archive_name(b) {
        assert(x =~= (x + suffix).subrange(0, x.len() as int));
        assert(y =~= (y + suffix).subrange(0, y.len() as int));
        assert(x.len() == y.len());
        lemma_hex_injective(blake3_hash(a), blake3_hash(b));
    }
}

/// The value of a lower-case hexadecimal digit.
pub open spec fn hex_char_value(c: char) -> int {
    if '0' <= c && c <= '9' {
        c as int - '0' as int
    } else {
        c as int - 'a' as int + 10
    }
}

/// A lower-case hexadecimal digit.
pub open spec fn is_hex_char(c: char) -> bool {
    ('0' <= c && c <= '9') || ('a' <= c && c <= 'f')
}

/// The hex of some bytes reads back as those bytes: two lower-case digits
/// per byte, the high half first.
pub proof fn lemma_hex_reads_back(bytes: Seq<u8>, i: int)
    requires
        0 <= i < bytes.len(),
    ensures
        hex_lower(bytes).len() == 2 * bytes.len(),
        is_hex_char(hex_lower(bytes)[2 * i]),
        is_hex_char(hex_lower(bytes)[2 * i + 1]),
        hex_char_value(hex_lower(bytes)[2 * i]) * 16 + hex_char_value(hex_lower(bytes)[2 * i + 1])
            == bytes[i] as int,
    decreases bytes.len(),
{
    lemma_hex_len(bytes);
    let init = bytes.drop_last();
    lemma_hex_len(init);
    if i < bytes.len() - 1 {
        lemma_hex_reads_back(init, i);
        assert(hex_lower(bytes)[2 * i] == hex_lower(init)[2 * i]);
        assert(hex_lower(bytes)[2 * i + 1] == hex_lower(init)[2 * i + 1]);
    } else {
        let b = bytes.last() as nat;
        lemma_hex_digit_code(b / 16);
        lemma_hex_digit_code(b % 16);
        assert(hex_lower(bytes)[2 * i] == hex_digit(b / 16));
        assert(hex_lower(bytes)[2 * i + 1] == hex_digit(b % 16));
        assert(b == 16 * (b / 16) + b % 16);
    }
}

/// An archive's name is the hex of its hash, which reads back as the hash,
/// followed by `.bak`.
pub proof fn lemma_archive_name_shape(archive: Seq<u8>, i: int)
    requires
        0 <= i < blake3_hash(archive).len(),
    ensures
        spec_archive_name(archive).len() == 2 * blake3_hash(archive).len() + 4,
        spec_archive_name(archive).subrange(
            spec_archive_name(archive).len() - 4,
            spec_archive_name(archive).len() as int,
        ) == seq!['.', 'b', 'a', 'k'],
        hex_char_value(spec_archive_name(archive)[2 * i]) * 16 + hex_char_value(
            spec_archive_name(archive)[2 * i + 1],
        ) == blake3_hash(archive)[i] as int,
{
    reveal_strlit(".bak");
    lemma_hex_reads_back(blake3_hash(archive), i);
    let x = hex_lower(blake3_hash(archive));
    let n = spec_archive_name(archive);
    assert(n[2 * i] == x[2 * i]);
    assert(n[2 * i + 1] == x[2 * i + 1]);
    assert(n.subrange(n.len() - 4, n.len() as int) =~= seq!['.', 'b', 'a', 'k']);
}


/// The name of the temporary file that an archive is written to before it is
/// named: `.tmp-<time>-<seq>`, with `-<n>` added for the `n`-th retry when
/// that name is taken.
pub open spec fn spec_tmp_name(time: u64, seq_no: u64, n: u64) -> Seq<char> {
    ".tmp-"@ + decimal(time as nat) + seq!['-'] + decimal(seq_no as nat) + if n == 0 {
        Seq::empty()
    } else {
        seq!['-'] + decimal(n as nat)
    }
}

pub fn tmp_name(time: u64, seq_no: u64, n: u64) -> (name: String)
    ensures
        name@ == spec_tmp_name(time, seq_no, n),
{
    let mut s = String::new();
    push_char(&mut s, '.');
    push_char(&mut s, 't');
    push_char(&mut s, 'm');
    push_char(&mut s, 'p');
    push_char(&mut s, '-');
    push_decimal(&mut s, time);
    push_char(&mut s, '-');
    push_decimal(&mut s, seq_no);
    if n != 0 {
        push_char(&mut s, '-');
        push_decimal(&mut s, n);
    }
    proof {
        reveal_strlit(".tmp-");
    }
    assert(s@ =~= spec_tmp_name(time, seq_no, n));
    s
}

/// A decimal writing followed by a dash is told apart at the dash: the
/// numbers before it and the texts after it are the same.
proof fn lemma_split_at_dash(a: nat, b: nat, x: Seq<char>, y: Seq<char>)
    requires
        decimal(a) + seq!['-'] + x == decimal(b) + seq!['-'] + y,
    ensures
        a == b,
        x == y,
{
    lemma_decimal(a);
    lemma_decimal(b);
    let da = decimal(a);
    let db = decimal(b);
    let l = da + seq!['-'] + x;
    if da.len() < db.len() {
        assert(l[da.len() as int] == '-');
        assert(l[da.len() as int] == db[da.len() as int]);
        assert(is_digit(db[da.len() as int]));
    } else if db.len() < da.len() {
        assert(l[db.len() as int] == da[db.len() as int]);
        assert(is_digit(da[db.len() as int]));
    }
    assert(da =~= l.subrange(0, da.len() as int));
    assert(db =~= l.subrange(0, db.len() as int));
    assert(x =~= l.subrange(da.len() as int + 1, l.len() as int));
    assert(y =~= l.subrange(db.len() as int + 1, l.len() as int));
}

/// The part of a temporary name after its time and the dash that follows.
spec fn tmp_tail(seq_no: u64, n: u64) -> Seq<char> {
    decimal(seq_no as nat) + if n == 0 {
        Seq::empty()
    } else {
        seq!['-'] + decimal(n as nat)
    }
}

proof fn lemma_tmp_tail_injective(s1: u64, n1: u64, s2: u64, n2: u64)
    requires
        tmp_tail(s1, n1) == tmp_tail(s2, n2),
    ensures
        s1 == s2,
        n1 == n2,
{
    lemma_decimal(s1 as nat);
    lemma_decimal(s2 as nat);
    lemma_decimal(n1 as nat);
    lemma_decimal(n2 as nat);
    let d1 = decimal(s1 as nat);
    let d2 = decimal(s2 as nat);
    let t = tmp_tail(s1, n1);
    if n1 == 0 && n2 == 0 {
        assert(d1 =~= t);
        assert(d2 =~= t);
    } else if n1 == 0 {
        assert(t == d2 + seq!['-'] + decimal(n2 as nat));
        assert(t[d2.len() as int] == '-');
        assert(t =~= d1);
        assert(is_digit(d1[d2.len() as int]));
    } else if n2 == 0 {
        assert(t == d1 + seq!['-'] + decimal(n1 as nat));
        assert(t[d1.len() as int] == '-');
        assert(t =~= d2);
        assert(is_digit(d2[d1.len() as int]));
    } else {
        assert(t =~= d1 + seq!['-'] + decimal(n1 as nat));
        assert(t =~= d2 + seq!['-'] + decimal(n2 as nat));
        lemma_split_at_dash(s1 as nat, s2 as nat, decimal(n1 as nat), decimal(n2 as nat));
        lemma_decimal(n1 as nat);
        lemma_decimal(n2 as nat);
    }
    lemma_decimal(s1 as nat);
    lemma_decimal(s2 as nat);
}

/// Temporary names never collide: two names are equal only for the same
/// time, the same sequence number and the same retry.
pub proof fn lemma_tmp_names_distinct(t1: u64, s1: u64, n1: u64, t2: u64, s2: u64, n2: u64)
    requires
        t1 != t2 || s1 != s2 || n1 != n2,
    ensures
        spec_tmp_name(t1, s1, n1) != spec_tmp_name(t2, s2, n2),
{
    reveal_strlit(".tmp-");
    if spec_tmp_name(t1, s1, n1) == spec_tmp_name(t2, s2, n2) {
        let p = ".tmp-"@;
        let a = spec_tmp_name(t1, s1, n1);
        assert(a =~= p + (decimal(t1 as nat) + seq!['-'] + tmp_tail(s1, n1)));
        assert(a =~= p + (decimal(t2 as nat) + seq!['-'] + tmp_tail(s2, n2)));
        assert(decimal(t1 as nat) + seq!['-'] + tmp_tail(s1, n1) =~= a.subrange(5, a.len() as int));
        assert(decimal(t2 as nat) + seq!['-'] + tmp_tail(s2, n2) =~= a.subrange(5, a.len() as int));
        lemma_split_at_dash(t1 as nat, t2 as nat, tmp_tail(s1, n1), tmp_tail(s2, n2));
        lemma_tmp_tail_injective(s1, n1, s2, n2);
    }
}

// ---------------------------------------------------------------------------
// The record of a packed path
// ---------------------------------------------------------------------------

/// A path packed into the trash.
#[derive(Debug, Clone)]
pub struct PackResult {
    /// Where the path was.
    pub original_path: String,
    /// The archive that holds it.
    pub present_path: String,
    /// The archive's size, human-readable.
    pub size: String,
    /// When it was packed, in milliseconds since the epoch.
    pub time: u64,
}

/// Describes a path packed at `time` into the archive `archive` in
/// `output_dir`: the archive lies at `output_dir/<hash>.bak` and its size is
/// the length of its bytes.
pub fn pack_result(src: &str, output_dir: &str, archive: &[u8], time: u64) -> (r: PackResult)
    ensures
        r.original_path@ == src@,
        r.present_path@ == spec_join(output_dir@, spec_archive_name(archive@)),
        r.size@ == spec_humanized_size(archive@.len() as u64),
        r.time == time,
{
    let name = archive_name(archive);
    let present_path = join(output_dir, name.as_str());
    let size = humanized_size(archive.len() as u64);
    PackResult { original_path: src.to_owned(), present_path, size, time }
}

// ---------------------------------------------------------------------------
// Restoring
// ---------------------------------------------------------------------------

/// What happens to one entry of an archive that is being restored.
#[derive(Debug, Clone, Copy, PartialEq, Eq, Structural)]
pub enum EntryAction {
    /// Unpack it.
    Restore,
    /// Leave the existing file alone.
    Skip,
    /// Ask whether to overwrite the existing file.
    Ask,
}

/// What happens to an entry of an archive that is restored: an entry whose
/// destination is free is restored; otherwise `always` overwrites it,
/// `never` skips it and `ask` asks.
pub fn entry_action(cover: CoverMode, dest_exists: bool) -> (a: EntryAction)
    ensures
        !dest_exists ==> a == EntryAction::Restore,
        dest_exists && cover == CoverMode::Always ==> a == EntryAction::Restore,
        dest_exists && cover == CoverMode::Never ==> a == EntryAction::Skip,
        dest_exists && cover == CoverMode::Ask ==> a == EntryAction::Ask,
{
    if !dest_exists {
        EntryAction::Restore
    } else {
        match cover {
            CoverMode::Always => EntryAction::Restore,
            CoverMode::Never => EntryAction::Skip,
            CoverMode::Ask => EntryAction::Ask,
        }
    }
}

/// Whether an answer to a yes/no prompt is yes: exactly `y` or `Y`.
pub fn is_yes(answer: &str) -> (r: bool)
    ensures
        r == (answer@ == seq!['y'] || answer@ == seq!['Y']),
{
    let mut count: usize = 0;
    let mut first: char = ' ';
    for c in it: answer.chars()
        invariant
            it.seq() == answer@,
            count == if it.index() < 2 { it.index() } else { 2 },
            it.index() >= 1 ==> first == answer@[0],
    {
        if count == 0 {
            first = c;
        }
        if count < 2 {
            count = count + 1;
        }
    }
    let r = count == 1 && (first == 'y' || first == 'Y');
    proof {
        if count == 1 {
            assert(answer@.len() == 1);
            if first == 'y' {
                assert(answer@ =~= seq!['y']);
            }
            if first == 'Y' {
                assert(answer@ =~= seq!['Y']);
            }
        }
    }
    r
}

/// How many entries were restored and how many skipped.
#[derive(Debug, Clone, Copy)]
pub struct UnpackStats {
    /// Entries successfully restored.
    pub restored: usize,
    /// Entries skipped because the cover mode refused to overwrite.
    pub skipped: usize,
}

impl UnpackStats {
    /// No entry yet.
    pub fn new() -> (s: UnpackStats)
        ensures
            s.restored == 0,
            s.skipped == 0,
    {
        UnpackStats { restored: 0, skipped: 0 }
    }

    /// Counts one entry, as restored or as skipped.
    pub fn record(&mut self, restored: bool)
        requires
            restored ==> old(self).restored < usize::MAX,
            !restored ==> old(self).skipped < usize::MAX,
        ensures
            restored ==> final(self).restored == old(self).restored + 1 && final(self).skipped
                == old(self).skipped,
            !restored ==> final(self).skipped == old(self).skipped + 1 && final(self).restored
                == old(self).restored,
    {
        if restored {
            self.restored = self.restored + 1;
        } else {
            self.skipped = self.skipped + 1;
        }
    }

    /// Whether nothing was skipped, so that the record can be dropped.
    pub fn fully_restored(&self) -> (r: bool)
        ensures
            r == (self.skipped == 0),
    {
        self.skipped == 0
    }
}

} // verus!
