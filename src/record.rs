//! The binary layout shared by messages on the wire and entries of the log file.
//!
//! Every record starts with a one-byte tag and an eight-byte big-endian timestamp.
//! A user record then holds six color bytes and a username field of exactly
//! `USERNAME_LEN` bytes, padded with NUL; the body takes the remaining bytes.
use vstd::prelude::*;

verus! {

pub const TAG_USER: u8 = 0;

pub const TAG_SYSTEM: u8 = 1;

pub const COLOR_LEN: usize = 6;

pub const USERNAME_LEN: usize = 64;

/// Tag and timestamp: where the body of a system record starts.
pub const SYSTEM_HEADER_LEN: usize = 9;

/// Tag, timestamp, color and username: where the body of a user record starts.
pub const USER_HEADER_LEN: usize = 79;

/// One immutable unit of chat history.
#[derive(Clone, Debug, PartialEq, Eq)]
pub enum Record {
    User { timestamp: i64, color: [u8; 6], username: Vec<u8>, body: Vec<u8> },
    System { timestamp: i64, body: Vec<u8> },
}

/// Why a byte string is not a record.
#[derive(Clone, Copy, Debug, PartialEq, Eq, Structural)]
pub enum MalformedRecord {
    /// Fewer bytes than the fixed fields of the declared tag need (or no tag at all).
    Truncated,
    /// A first byte that is neither `TAG_USER` nor `TAG_SYSTEM`.
    UnknownTag(u8),
}

/// What a record is, as a mathematical value.
pub enum RecordModel {
    User { timestamp: i64, color: Seq<u8>, username: Seq<u8>, body: Seq<u8> },
    System { timestamp: i64, body: Seq<u8> },
}

impl View for Record {
    type V = RecordModel;

    open spec fn view(&self) -> RecordModel {
        match self {
            Record::User { timestamp, color, username, body } => RecordModel::User {
                timestamp: *timestamp,
                color: color@,
                username: username@,
                body: body@,
            },
            Record::System { timestamp, body } => RecordModel::System {
                timestamp: *timestamp,
                body: body@,
            },
        }
    }
}

/// The eight big-endian bytes of `v`.
pub open spec fn be_bytes(v: u64) -> Seq<u8> {
    seq![
        (v >> 56u64) as u8,
        (v >> 48u64) as u8,
        (v >> 40u64) as u8,
        (v >> 32u64) as u8,
        (v >> 24u64) as u8,
        (v >> 16u64) as u8,
        (v >> 8u64) as u8,
        v as u8,
    ]
}

/// The number whose big-endian bytes are the first eight of `b`.
pub open spec fn from_be(b: Seq<u8>) -> u64
    recommends
        b.len() >= 8,
{
    ((b[0] as u64) << 56u64) | ((b[1] as u64) << 48u64) | ((b[2] as u64) << 40u64) | ((
    b[3] as u64) << 32u64) | ((b[4] as u64) << 24u64) | ((b[5] as u64) << 16u64) | ((
    b[6] as u64) << 8u64) | (b[7] as u64)
}

/// The username field: the name cut to `USERNAME_LEN` bytes, then padded with NUL to that length.
pub open spec fn name_field(name: Seq<u8>) -> Seq<u8> {
    let kept = if name.len() <= USERNAME_LEN { name } else { name.take(USERNAME_LEN as int) };
    kept + Seq::new((USERNAME_LEN - kept.len()) as nat, |i: int| 0u8)
}

/// `s` without its trailing NUL bytes.
pub open spec fn trim_nul(s: Seq<u8>) -> Seq<u8>
    decreases s.len(),
{
    if s.len() > 0 && s.last() == 0 {
        trim_nul(s.drop_last())
    } else {
        s
    }
}

/// A name that the username field gives back unchanged.
pub open spec fn valid_name(name: Seq<u8>) -> bool {
    name.len() <= USERNAME_LEN && (name.len() == 0 || name.last() != 0)
}

/// A record that decoding its encoding gives back.
pub open spec fn valid_record(r: RecordModel) -> bool {
    match r {
        RecordModel::User { color, username, .. } => color.len() == COLOR_LEN && valid_name(
            username,
        ),
        RecordModel::System { .. } => true,
    }
}

/// The bytes of a record.
pub open spec fn serialize(r: RecordModel) -> Seq<u8> {
    match r {
        RecordModel::User { timestamp, color, username, body } => seq![TAG_USER] + be_bytes(
            timestamp as u64,
        ) + color + name_field(username) + body,
        RecordModel::System { timestamp, body } => seq![TAG_SYSTEM] + be_bytes(timestamp as u64)
            + body,
    }
}

/// The record that a byte string holds, or why it holds none.
pub open spec fn parse(b: Seq<u8>) -> Result<RecordModel, MalformedRecord> {
    if b.len() == 0 {
        Err(MalformedRecord::Truncated)
    } else if b[0] == TAG_USER {
        if b.len() < USER_HEADER_LEN {
            Err(MalformedRecord::Truncated)
        } else {
            Ok(
                RecordModel::User {
                    timestamp: from_be(b.subrange(1, 9)) as i64,
                    color: b.subrange(9, 15),
                    username: trim_nul(b.subrange(15, 79)),
                    body: b.subrange(79, b.len() as int),
                },
            )
        }
    } else if b[0] == TAG_SYSTEM {
        if b.len() < SYSTEM_HEADER_LEN {
            Err(MalformedRecord::Truncated)
        } else {
            Ok(
                RecordModel::System {
                    timestamp: from_be(b.subrange(1, 9)) as i64,
                    body: b.subrange(9, b.len() as int),
                },
            )
        }
    } else {
        Err(MalformedRecord::UnknownTag(b[0]))
    }
}

pub open spec fn view_result(r: Result<Record, MalformedRecord>) -> Result<
    RecordModel,
    MalformedRecord,
> {
    match r {
        Ok(x) => Ok(x@),
        Err(e) => Err(e),
    }
}

fn push_be_bytes(out: &mut Vec<u8>, v: u64)
    ensures
        final(out)@ == old(out)@ + be_bytes(v),
{
    out.push((v >> 56u64) as u8);
    out.push((v >> 48u64) as u8);
    out.push((v >> 40u64) as u8);
    out.push((v >> 32u64) as u8);
    out.push((v >> 24u64) as u8);
    out.push((v >> 16u64) as u8);
    out.push((v >> 8u64) as u8);
    out.push(v as u8);
    assert(final(out)@ =~= old(out)@ + be_bytes(v));
}

fn push_all(out: &mut Vec<u8>, src: &[u8])
    ensures
        final(out)@ == old(out)@ + src@,
{
    let mut i: usize = 0;
    while i < src.len()
        invariant
            i <= src@.len(),
            out@ == old(out)@ + src@.take(i as int),
        decreases src@.len() - i,
    {
        out.push(src[i]);
        i = i + 1;
        assert(out@ =~= old(out)@ + src@.take(i as int));
    }
    assert(src@.take(i as int) =~= src@);
}

fn push_name_field(out: &mut Vec<u8>, name: &Vec<u8>)
    ensures
        final(out)@ == old(out)@ + name_field(name@),
{
    let ghost field = name_field(name@);
    let mut i: usize = 0;
    while i < USERNAME_LEN
        invariant
            i <= USERNAME_LEN,
            field.len() == USERNAME_LEN,
            field == name_field(name@),
            out@ == old(out)@ + field.take(i as int),
        decreases USERNAME_LEN - i,
    {
        if i < name.len() {
            out.push(name[i]);
        } else {
            out.push(0u8);
        }
        i = i + 1;
        assert(out@ =~= old(out)@ + field.take(i as int));
    }
    assert(field.take(USERNAME_LEN as int) =~= field);
}

/// The bytes of `r`. A username longer than `USERNAME_LEN` bytes is cut to that length.
pub fn encode(r: &Record) -> (out: Vec<u8>)
    ensures
        out@ == serialize(r@),
{
    let mut out: Vec<u8> = Vec::new();
    match r {
        Record::User { timestamp, color, username, body } => {
            out.push(TAG_USER);
            push_be_bytes(&mut out, *timestamp as u64);
            push_all(&mut out, color.as_slice());
            push_name_field(&mut out, username);
            push_all(&mut out, body.as_slice());
        },
        Record::System { timestamp, body } => {
            out.push(TAG_SYSTEM);
            push_be_bytes(&mut out, *timestamp as u64);
            push_all(&mut out, body.as_slice());
        },
    }
    assert(out@ =~= serialize(r@));
    out
}

fn copy_range(b: &[u8], lo: usize, hi: usize) -> (out: Vec<u8>)
    requires
        lo <= hi <= b@.len(),
    ensures
        out@ == b@.subrange(lo as int, hi as int),
{
    let mut out: Vec<u8> = Vec::new();
    let mut i: usize = lo;
    while i < hi
        invariant
            lo <= i <= hi <= b@.len(),
            out@ == b@.subrange(lo as int, i as int),
        decreases hi - i,
    {
        out.push(b[i]);
        i = i + 1;
        assert(out@ =~= b@.subrange(lo as int, i as int));
    }
    out
}

fn read_be_u64(b: &[u8], at: usize) -> (v: u64)
    requires
        at + 8 <= b@.len(),
    ensures
        v == from_be(b@.subrange(at as int, at + 8)),
{
    let s = Ghost(b@.subrange(at as int, at + 8));
    assert(s@[0] == b@[at as int] && s@[1] == b@[at + 1] && s@[2] == b@[at + 2] && s@[3]
        == b@[at + 3] && s@[4] == b@[at + 4] && s@[5] == b@[at + 5] && s@[6] == b@[at + 6]
        && s@[7] == b@[at + 7]);
    ((b[at] as u64) << 56u64) | ((b[at + 1] as u64) << 48u64) | ((b[at + 2] as u64) << 40u64)
        | ((b[at + 3] as u64) << 32u64) | ((b[at + 4] as u64) << 24u64) | ((b[at + 5] as u64)
        << 16u64) | ((b[at + 6] as u64) << 8u64) | (b[at + 7] as u64)
}

proof fn lemma_trim_nul_prefix(s: Seq<u8>, k: int)
    requires
        0 <= k <= s.len(),
        forall|j: int| k <= j < s.len() ==> s[j] == 0,
    ensures
        trim_nul(s) == trim_nul(s.take(k)),
    decreases s.len(),
{
    if s.len() > k {
        assert(s.drop_last().take(k) =~= s.take(k));
        lemma_trim_nul_prefix(s.drop_last(), k);
    } else {
        assert(s.take(k) =~= s);
    }
}

/// The bytes of a username field without its NUL padding.
fn trimmed_name(b: &[u8]) -> (out: Vec<u8>)
    requires
        b@.len() >= USER_HEADER_LEN,
    ensures
        out@ == trim_nul(b@.subrange(15, 79)),
{
    let ghost field = b@.subrange(15, 79);
    let mut end: usize = USER_HEADER_LEN;
    while end > 15 && b[end - 1] == 0
        invariant
            15 <= end <= USER_HEADER_LEN,
            b@.len() >= USER_HEADER_LEN,
            forall|j: int| end <= j < USER_HEADER_LEN ==> b@[j] == 0,
        decreases end,
    {
        end = end - 1;
    }
    proof {
        lemma_trim_nul_prefix(field, end - 15);
        let t = field.take(end - 15);
        assert(t =~= b@.subrange(15, end as int));
        if t.len() > 0 {
            assert(t.last() == b@[end - 1]);
        }
    }
    copy_range(b, 15, end)
}

/// The record held by `bytes`, or why there is none.
pub fn decode(bytes: &[u8]) -> (r: Result<Record, MalformedRecord>)
    ensures
        view_result(r) == parse(bytes@),
{
    let len = bytes.len();
    if len == 0 {
        return Err(MalformedRecord::Truncated);
    }
    let tag = bytes[0];
    if tag == TAG_USER {
        if len < USER_HEADER_LEN {
            return Err(MalformedRecord::Truncated);
        }
        let timestamp = read_be_u64(bytes, 1) as i64;
        let color: [u8; 6] = [bytes[9], bytes[10], bytes[11], bytes[12], bytes[13], bytes[14]];
        let username = trimmed_name(bytes);
        let body = copy_range(bytes, USER_HEADER_LEN, len);
        assert(color@ =~= bytes@.subrange(9, 15));
        Ok(Record::User { timestamp, color, username, body })
    } else if tag == TAG_SYSTEM {
        if len < SYSTEM_HEADER_LEN {
            return Err(MalformedRecord::Truncated);
        }
        let timestamp = read_be_u64(bytes, 1) as i64;
        let body = copy_range(bytes, SYSTEM_HEADER_LEN, len);
        Ok(Record::System { timestamp, body })
    } else {
        Err(MalformedRecord::UnknownTag(tag))
    }
}

proof fn lemma_be_bytes_inverse(v: u64)
    ensures
        be_bytes(v).len() == 8,
        from_be(be_bytes(v)) == v,
{
    let b = be_bytes(v);
    let (b0, b1, b2, b3, b4, b5, b6, b7) = (b[0], b[1], b[2], b[3], b[4], b[5], b[6], b[7]);
    assert(((b0 as u64) << 56u64) | ((b1 as u64) << 48u64) | ((b2 as u64) << 40u64) | ((
    b3 as u64) << 32u64) | ((b4 as u64) << 24u64) | ((b5 as u64) << 16u64) | ((b6 as u64)
        << 8u64) | (b7 as u64) == v) by (bit_vector)
        requires
            b0 == (v >> 56u64) as u8,
            b1 == (v >> 48u64) as u8,
            b2 == (v >> 40u64) as u8,
            b3 == (v >> 32u64) as u8,
            b4 == (v >> 24u64) as u8,
            b5 == (v >> 16u64) as u8,
            b6 == (v >> 8u64) as u8,
            b7 == v as u8,
    ;
}

proof fn lemma_timestamp_round_trip(t: i64)
    ensures
        from_be(be_bytes(t as u64)) as i64 == t,
{
    lemma_be_bytes_inverse(t as u64);
    assert((t as u64) as i64 == t) by (bit_vector);
}

/// The username field of a name of at most `USERNAME_LEN` bytes is the name followed by
/// NUL bytes up to that length, and reading the field back gives the name without its
/// trailing NUL bytes.
pub proof fn lemma_name_field(name: Seq<u8>)
    requires
        name.len() <= USERNAME_LEN,
    ensures
        name_field(name).len() == USERNAME_LEN,
        name_field(name).take(name.len() as int) == name,
        forall|i: int| name.len() <= i < USERNAME_LEN ==> #[trigger] name_field(name)[i] == 0,
        trim_nul(name_field(name)) == trim_nul(name),
{
    let field = name_field(name);
    assert(field.take(name.len() as int) =~= name);
    lemma_trim_nul_prefix(field, name.len() as int);
}

/// Decoding the encoding of a valid record gives the record back.
pub proof fn lemma_round_trip(r: RecordModel)
    requires
        valid_record(r),
    ensures
        parse(serialize(r)) == Ok::<RecordModel, MalformedRecord>(r),
{
    let b = serialize(r);
    match r {
        RecordModel::User { timestamp, color, username, body } => {
            lemma_name_field(username);
            lemma_timestamp_round_trip(timestamp);
            assert(b.subrange(1, 9) =~= be_bytes(timestamp as u64));
            assert(b.subrange(9, 15) =~= color);
            assert(b.subrange(15, 79) =~= name_field(username));
            assert(b.subrange(79, b.len() as int) =~= body);
            assert(trim_nul(username) == username);
        },
        RecordModel::System { timestamp, body } => {
            lemma_timestamp_round_trip(timestamp);
            assert(b.subrange(1, 9) =~= be_bytes(timestamp as u64));
            assert(b.subrange(9, b.len() as int) =~= body);
        },
    }
}

} // verus!
