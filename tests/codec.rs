use gossip_chat::record::{decode, encode, MalformedRecord, Record, USERNAME_LEN};
use gossip_chat::store::{log_entry, read_log, DELIMITER};

fn user(ts: i64, name: &[u8], body: &[u8]) -> Record {
    Record::User {
        timestamp: ts,
        color: *b"ff8800",
        username: name.to_vec(),
        body: body.to_vec(),
    }
}

#[test]
fn system_record_layout() {
    let r = Record::System { timestamp: 0x0102030405060708, body: b"hi".to_vec() };
    let bytes = encode(&r);
    assert_eq!(bytes, vec![1, 1, 2, 3, 4, 5, 6, 7, 8, b'h', b'i']);
}

#[test]
fn user_record_layout() {
    let r = user(1, b"bob", b"yo");
    let bytes = encode(&r);
    assert_eq!(bytes.len(), 81);
    assert_eq!(bytes[0], 0);
    assert_eq!(&bytes[1..9], &[0, 0, 0, 0, 0, 0, 0, 1]);
    assert_eq!(&bytes[9..15], b"ff8800");
    assert_eq!(&bytes[15..18], b"bob");
    assert!(bytes[18..79].iter().all(|b| *b == 0));
    assert_eq!(&bytes[79..], b"yo");
}

#[test]
fn round_trip_user_and_system() {
    let records = vec![
        user(1_700_000_000, b"alice", "h\u{e9}llo".as_bytes()),
        user(-5, b"", b""),
        Record::System { timestamp: i64::MIN, body: b"Listening on x".to_vec() },
        Record::System { timestamp: i64::MAX, body: Vec::new() },
    ];
    for r in records {
        assert_eq!(decode(&encode(&r)), Ok(r.clone()));
    }
}

#[test]
fn username_padding_round_trip() {
    let name = vec![b'x'; USERNAME_LEN];
    let r = user(7, &name, b"body");
    let bytes = encode(&r);
    assert_eq!(&bytes[15..79], name.as_slice());
    assert_eq!(decode(&bytes), Ok(r));

    let short = user(7, b"ann", b"");
    let bytes = encode(&short);
    assert_eq!(bytes[18], 0);
    assert_eq!(bytes[78], 0);
    assert_eq!(decode(&bytes), Ok(short));
}

#[test]
fn long_username_is_cut() {
    let name = vec![b'y'; 70];
    let bytes = encode(&user(7, &name, b"z"));
    assert_eq!(bytes.len(), 80);
    assert_eq!(&bytes[15..79], &name[..64]);
    assert_eq!(bytes[79], b'z');
    match decode(&bytes) {
        Ok(Record::User { username, body, .. }) => {
            assert_eq!(username, name[..64].to_vec());
            assert_eq!(body, b"z".to_vec());
        }
        other => panic!("unexpected {:?}", other),
    }
}

#[test]
fn decode_errors() {
    assert_eq!(decode(&[]), Err(MalformedRecord::Truncated));
    assert_eq!(decode(&[0u8; 78]), Err(MalformedRecord::Truncated));
    assert_eq!(decode(&[1u8; 8]), Err(MalformedRecord::Truncated));
    assert_eq!(decode(&[7u8, 0, 0]), Err(MalformedRecord::UnknownTag(7)));
    assert!(decode(&[0u8; 79]).is_ok());
    assert!(decode(&[1u8; 9]).is_ok());
}

#[test]
fn persistence_three_records() {
    let records = vec![
        user(1_000, b"alice", b"first"),
        Record::System { timestamp: 2_000, body: b"second".to_vec() },
        user(3_000, b"bob", b"third"),
    ];
    let mut file: Vec<u8> = Vec::new();
    for r in &records {
        let entry = log_entry(r);
        assert_eq!(*entry.last().unwrap(), DELIMITER);
        file.extend_from_slice(&entry);
    }
    assert_eq!(read_log(&file), Ok(records));
}

#[test]
fn read_log_empty_and_unterminated() {
    assert_eq!(read_log(&[]), Ok(Vec::new()));
    let r = Record::System { timestamp: 3, body: b"end".to_vec() };
    let bytes = encode(&r);
    assert_eq!(read_log(&bytes), Ok(vec![r]));
}

#[test]
fn read_log_rejects_malformed_entry() {
    let mut file = log_entry(&Record::System { timestamp: 3, body: b"ok".to_vec() });
    file.extend_from_slice(&[0, 1, 2, DELIMITER]);
    assert_eq!(read_log(&file), Err(MalformedRecord::Truncated));
    assert_eq!(read_log(&[DELIMITER]), Err(MalformedRecord::Truncated));
}
