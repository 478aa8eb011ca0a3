//! The log file: encoded records, each followed by one newline byte.
//!
//! Reading and appending the file itself is left to the caller; this module turns
//! a record into the bytes to append and the file's bytes into records.
use vstd::prelude::*;
use crate::record::{
    decode, encode, parse, serialize, valid_record, lemma_round_trip,
    MalformedRecord, Record, RecordModel,
};

verus! {

/// The byte that ends each entry of the log file.
pub const DELIMITER: u8 = 10;

/// The pieces of `b` between delimiters; the last piece is the one still open
/// (empty when `b` ends with a delimiter).
pub open spec fn segments(b: Seq<u8>) -> Seq<Seq<u8>>
    decreases b.len(),
{
    if b.len() == 0 {
        seq![Seq::empty()]
    } else {
        let s = segments(b.drop_last());
        if b.last() == DELIMITER {
            s.push(Seq::empty())
        } else {
            s.update(s.len() - 1, s.last().push(b.last()))
        }
    }
}

/// The entries of a log file: each piece that a delimiter ends, and a last piece
/// without one if it is not empty.
pub open spec fn lines(b: Seq<u8>) -> Seq<Seq<u8>> {
    let s = segments(b);
    if s.last().len() == 0 {
        s.drop_last()
    } else {
        s
    }
}

/// The records that the entries hold, or the error of the first entry that holds none.
pub open spec fn parse_all(ls: Seq<Seq<u8>>) -> Result<Seq<RecordModel>, MalformedRecord>
    decreases ls.len(),
{
    if ls.len() == 0 {
        Ok(Seq::empty())
    } else {
        match parse_all(ls.drop_last()) {
            Err(e) => Err(e),
            Ok(v) => match parse(ls.last()) {
                Ok(m) => Ok(v.push(m)),
                Err(e) => Err(e),
            },
        }
    }
}

/// The bytes of a log file that holds `rs`, in order.
pub open spec fn log_bytes(rs: Seq<RecordModel>) -> Seq<u8>
    decreases rs.len(),
{
    if rs.len() == 0 {
        Seq::empty()
    } else {
        log_bytes(rs.drop_last()) + serialize(rs.last()) + seq![DELIMITER]
    }
}

pub open spec fn views(v: Seq<Record>) -> Seq<RecordModel> {
    v.map_values(|r: Record| r@)
}

pub open spec fn views_result(r: Result<Vec<Record>, MalformedRecord>) -> Result<
    Seq<RecordModel>,
    MalformedRecord,
> {
    match r {
        Ok(v) => Ok(views(v@)),
        Err(e) => Err(e),
    }
}

/// The bytes to append to the log file for `r`: its encoding and a delimiter.
pub fn log_entry(r: &Record) -> (out: Vec<u8>)
    ensures
        out@ == serialize(r@) + seq![DELIMITER],
{
    let mut out = encode(r);
    out.push(DELIMITER);
    out
}

proof fn lemma_segments_nonempty(b: Seq<u8>)
    ensures
        segments(b).len() >= 1,
    decreases b.len(),
{
    if b.len() > 0 {
        lemma_segments_nonempty(b.drop_last());
    }
}

/// Closed pieces stay closed: the segments of a prefix, but for the open one, start
/// the segments of the whole.
proof fn lemma_segments_prefix(b: Seq<u8>, i: int)
    requires
        0 <= i <= b.len(),
    ensures
        segments(b.take(i)).len() <= segments(b).len(),
        segments(b.take(i)).drop_last() == segments(b).take(segments(b.take(i)).len() - 1),
    decreases b.len() - i,
{
    lemma_segments_nonempty(b.take(i));
    lemma_segments_nonempty(b);
    if i == b.len() {
        assert(b.take(i) =~= b);
        assert(segments(b).drop_last() =~= segments(b).take(segments(b).len() - 1));
    } else {
        lemma_segments_prefix(b, i + 1);
        let t = b.take(i + 1);
        assert(t.drop_last() =~= b.take(i));
        let s = segments(b.take(i));
        let s1 = segments(t);
        lemma_segments_nonempty(t);
        if t.last() == DELIMITER {
            assert(s1.drop_last() =~= s);
            assert(s.drop_last() =~= s1.take(s.len() - 1));
        } else {
            assert(s1.drop_last() =~= s.drop_last());
        }
        let n = s.len() - 1;
        let m = s1.len() - 1;
        assert(s1.drop_last() == segments(b).take(m));
        assert(s.drop_last() =~= segments(b).take(m).take(n));
        assert(segments(b).take(m).take(n) =~= segments(b).take(n));
    }
}

proof fn lemma_parse_all_prefix(ls: Seq<Seq<u8>>, k: int)
    requires
        0 <= k <= ls.len(),
        parse_all(ls.take(k)) is Err,
    ensures
        parse_all(ls) == parse_all(ls.take(k)),
    decreases ls.len() - k,
{
    if k < ls.len() {
        assert(ls.take(k + 1).drop_last() =~= ls.take(k));
        lemma_parse_all_prefix(ls, k + 1);
    } else {
        assert(ls.take(k) =~= ls);
    }
}

/// The records of a log file, in order; the error of the first entry that is not a record.
pub fn read_log(bytes: &[u8]) -> (r: Result<Vec<Record>, MalformedRecord>)
    ensures
        views_result(r) == parse_all(lines(bytes@)),
{
    let ghost b = bytes@;
    let mut records: Vec<Record> = Vec::new();
    let mut current: Vec<u8> = Vec::new();
    let mut i: usize = 0;
    proof {
        assert(b.take(0) =~= Seq::<u8>::empty());
        assert(views(records@) =~= Seq::<RecordModel>::empty());
    }
    while i < bytes.len()
        invariant
            i <= b.len(),
            b == bytes@,
            segments(b.take(i as int)).last() == current@,
            parse_all(segments(b.take(i as int)).drop_last()) == Ok::<
                Seq<RecordModel>,
                MalformedRecord,
            >(views(records@)),
        decreases b.len() - i,
    {
        let ghost before = segments(b.take(i as int));
        proof {
            lemma_segments_nonempty(b.take(i as int));
            assert(b.take(i + 1).drop_last() =~= b.take(i as int));
        }
        let byte = bytes[i];
        if byte == DELIMITER {
            let parsed = decode(current.as_slice());
            proof {
                let after = segments(b.take(i + 1));
                assert(after.drop_last() =~= before);
                assert(before.drop_last() =~= after.drop_last().drop_last());
            }
            match parsed {
                Ok(rec) => {
                    let ghost prev = records@;
                    records.push(rec);
                    current = Vec::new();
                    proof {
                        assert(views(records@) =~= views(prev).push(records@.last()@));
                    }
                },
                Err(e) => {
                    proof {
                        let after = segments(b.take(i + 1));
                        lemma_segments_prefix(b, i + 1);
                        lemma_segments_nonempty(b);
                        let whole = segments(b);
                        let k = after.len() - 1;
                        assert(parse_all(after.drop_last()) == Err::<
                            Seq<RecordModel>,
                            MalformedRecord,
                        >(e));
                        assert(whole.take(k) == after.drop_last());
                        assert(lines(b).take(k) =~= whole.take(k));
                        lemma_parse_all_prefix(lines(b), k);
                    }
                    return Err(e);
                },
            }
        } else {
            current.push(byte);
            proof {
                let after = segments(b.take(i + 1));
                assert(after.drop_last() =~= before.drop_last());
            }
        }
        i = i + 1;
    }
    proof {
        assert(b.take(i as int) =~= b);
        lemma_segments_nonempty(b);
        assert(segments(b).drop_last().push(segments(b).last()) =~= segments(b));
    }
    if current.len() > 0 {
        match decode(current.as_slice()) {
            Ok(rec) => {
                let ghost prev = records@;
                records.push(rec);
                proof {
                    assert(views(records@) =~= views(prev).push(records@.last()@));
                }
            },
            Err(e) => {
                return Err(e);
            },
        }
    }
    Ok(records)
}

proof fn lemma_segments_plain(a: Seq<u8>, c: Seq<u8>)
    requires
        !c.contains(DELIMITER),
    ensures
        segments(a + c) == segments(a).update(
            segments(a).len() - 1,
            segments(a).last() + c,
        ),
    decreases c.len(),
{
    lemma_segments_nonempty(a);
    if c.len() == 0 {
        assert(a + c =~= a);
        assert(segments(a).last() + c =~= segments(a).last());
        assert(segments(a).update(segments(a).len() - 1, segments(a).last()) =~= segments(a));
    } else {
        let c0 = c.drop_last();
        assert(!c0.contains(DELIMITER)) by {
            if c0.contains(DELIMITER) {
                let j = choose|j: int| 0 <= j < c0.len() && c0[j] == DELIMITER;
                assert(c[j] == DELIMITER);
            }
        }
        assert(c.last() != DELIMITER) by {
            assert(c[c.len() - 1] == c.last());
        }
        lemma_segments_plain(a, c0);
        assert((a + c).drop_last() =~= a + c0);
        assert((a + c).last() == c.last());
        let s = segments(a);
        let s0 = segments(a + c0);
        assert(s0.last() =~= s.last() + c0);
        assert(s0.last().push(c.last()) =~= s.last() + c);
        assert(s0.update(s0.len() - 1, s0.last().push(c.last())) =~= s.update(
            s.len() - 1,
            s.last() + c,
        ));
    }
}

/// The encodings of `rs`, one for each record.
pub open spec fn encodings(rs: Seq<RecordModel>) -> Seq<Seq<u8>> {
    rs.map_values(|r: RecordModel| serialize(r))
}

proof fn lemma_segments_log(rs: Seq<RecordModel>)
    requires
        forall|i: int| 0 <= i < rs.len() ==> !(#[trigger] serialize(rs[i])).contains(DELIMITER),
    ensures
        segments(log_bytes(rs)) == encodings(rs).push(Seq::<u8>::empty()),
    decreases rs.len(),
{
    if rs.len() == 0 {
        assert(encodings(rs).push(Seq::<u8>::empty()) =~= seq![Seq::<u8>::empty()]);
    } else {
        let pre = rs.drop_last();
        let x = serialize(rs.last());
        assert(x == serialize(rs[rs.len() - 1]));
        assert forall|i: int| 0 <= i < pre.len() implies !(#[trigger] serialize(
            pre[i],
        )).contains(DELIMITER) by {
            assert(pre[i] == rs[i]);
        }
        lemma_segments_log(pre);
        let mid = log_bytes(pre) + x;
        lemma_segments_plain(log_bytes(pre), x);
        let whole = log_bytes(rs);
        assert(whole =~= mid + seq![DELIMITER]);
        assert(whole.drop_last() =~= mid);
        let sp = encodings(pre).push(Seq::<u8>::empty());
        assert(Seq::<u8>::empty() + x =~= x);
        assert(segments(mid) =~= encodings(pre).push(x));
        assert(encodings(pre).push(x) =~= encodings(rs));
    }
}

proof fn lemma_parse_encodings(rs: Seq<RecordModel>)
    requires
        forall|i: int| 0 <= i < rs.len() ==> valid_record(#[trigger] rs[i]),
    ensures
        parse_all(encodings(rs)) == Ok::<Seq<RecordModel>, MalformedRecord>(rs),
    decreases rs.len(),
{
    if rs.len() > 0 {
        let pre = rs.drop_last();
        assert forall|i: int| 0 <= i < pre.len() implies valid_record(#[trigger] pre[i]) by {
            assert(pre[i] == rs[i]);
        }
        lemma_parse_encodings(pre);
        assert(valid_record(rs[rs.len() - 1]));
        lemma_round_trip(rs.last());
        assert(encodings(rs).drop_last() =~= encodings(pre));
        assert(pre.push(rs.last()) =~= rs);
    } else {
        assert(encodings(rs) =~= Seq::<Seq<u8>>::empty());
        assert(rs =~= Seq::<RecordModel>::empty());
    }
}

/// Reading back a log file to which valid records were appended, one after another,
/// gives those records in the same order, provided that no record's encoding holds
/// the delimiter byte.
pub proof fn lemma_log_round_trip(rs: Seq<RecordModel>)
    requires
        forall|i: int| 0 <= i < rs.len() ==> valid_record(#[trigger] rs[i]),
        forall|i: int| 0 <= i < rs.len() ==> !(#[trigger] serialize(rs[i])).contains(DELIMITER),
    ensures
        parse_all(lines(log_bytes(rs))) == Ok::<Seq<RecordModel>, MalformedRecord>(rs),
{
    lemma_segments_log(rs);
    assert(encodings(rs).push(Seq::<u8>::empty()).drop_last() =~= encodings(rs));
    lemma_parse_encodings(rs);
}

} // verus!
