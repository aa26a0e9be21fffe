use pollard_kangaroo::kangaroo::{Kangaroo, Parameters};
use pollard_kangaroo::Error;

fn expect_rejected(bytes: &Vec<u8>) {
    match Kangaroo::from_bytes(bytes) {
        Err(e) => assert_eq!(e, Error::DeserializationFailed),
        Ok(_) => panic!("malformed bytes were accepted"),
    }
}

fn built_kangaroo() -> Kangaroo {
    let parameters = Parameters {
        i: 8,
        W: 8,
        N: 8,
        R: 8,
        secret_size: 16,
    };
    Kangaroo::from_parameters(parameters).unwrap()
}

#[test]
fn serialized_tables_load_back_field_for_field() {
    let kangaroo = built_kangaroo();
    let bytes = kangaroo.to_bytes();
    let loaded = Kangaroo::from_bytes(&bytes).unwrap();

    assert_eq!(loaded.parameters, kangaroo.parameters);
    assert_eq!(loaded.table.slog.len(), kangaroo.table.slog.len());
    assert_eq!(loaded.table.s.len(), kangaroo.table.s.len());
    assert_eq!(loaded.table.table.len(), kangaroo.table.table.len());
    for j in 0..kangaroo.table.slog.len() {
        assert_eq!(loaded.table.slog[j].bytes(), kangaroo.table.slog[j].bytes());
        assert_eq!(loaded.table.s[j].encoding(), kangaroo.table.s[j].encoding());
    }
    for j in 0..kangaroo.table.table.len() {
        assert_eq!(loaded.table.table[j].point, kangaroo.table.table[j].point);
        assert_eq!(loaded.table.table[j].log.bytes(), kangaroo.table.table[j].log.bytes());
    }

    // serializing the loaded copy reproduces the exact bytes
    assert_eq!(loaded.to_bytes(), bytes);
}

#[test]
fn a_loaded_table_still_solves() {
    let parameters = Parameters {
        i: 8,
        W: 8,
        N: 512,
        R: 64,
        secret_size: 16,
    };
    let kangaroo = Kangaroo::from_parameters(parameters).unwrap();
    let bytes = kangaroo.to_bytes();
    let loaded = Kangaroo::from_bytes(&bytes).unwrap();

    let sk = pollard_kangaroo::utils::scalar_from_u64(777);
    let pk = pollard_kangaroo::utils::public_key(&sk);
    assert_eq!(loaded.solve_dlp(&pk, None).unwrap(), Some(777));
}

#[test]
fn malformed_bytes_are_rejected_at_load_time() {
    let kangaroo = built_kangaroo();
    let bytes = kangaroo.to_bytes();

    let empty: Vec<u8> = Vec::new();
    expect_rejected(&empty);

    let mut truncated = bytes.clone();
    truncated.pop();
    expect_rejected(&truncated);

    // a jump log with its high bit set is not a canonical scalar
    let mut corrupted = bytes.clone();
    corrupted[33 + 31] |= 0x80;
    expect_rejected(&corrupted);

    // a jump point block that is no canonical encoding is rejected too
    let mut bad_point = bytes.clone();
    let first_point = 33 + 32 * 8;
    for b in bad_point.iter_mut().skip(first_point).take(32) {
        *b = 0xff;
    }
    expect_rejected(&bad_point);

    let mut trailing = bytes.clone();
    trailing.push(0);
    expect_rejected(&trailing);

    // an invalid parameter header is rejected before anything else
    let mut bad_parameters = bytes;
    bad_parameters[32] = 65;
    expect_rejected(&bad_parameters);
}
