use pollard_kangaroo::kangaroo::{
    get_last_point_bytes, hash, is_distinguished, Kangaroo, Parameters, Table,
};
use pollard_kangaroo::presets::Presets;
use pollard_kangaroo::utils::{
    generate_keypair, generate_random_scalar, public_key, scalar_from_u64, scalar_to_u64,
};
use pollard_kangaroo::Error;

/// A 16-bit parameter set with a table small enough to build quickly; the
/// lower `N` only lowers the per-walk hit rate, so an unbounded solve still
/// finds every secret.
fn small_parameters() -> Parameters {
    Parameters {
        i: 8,
        W: 8,
        N: 512,
        R: 64,
        secret_size: 16,
    }
}

/// A tiny parameter set for tests that never need a table hit.
fn tiny_parameters() -> Parameters {
    Parameters {
        i: 8,
        W: 8,
        N: 16,
        R: 64,
        secret_size: 16,
    }
}

#[test]
fn it_solves_16_bit_dl_with_small_table() {
    let kangaroo = Kangaroo::from_parameters(small_parameters()).unwrap();

    let (sk, pk) = generate_keypair(16).unwrap();
    let sk_u64 = scalar_to_u64(&sk);

    assert_eq!(kangaroo.solve_dlp(&pk, None).unwrap().unwrap(), sk_u64);
}

#[test]
fn it_solves_the_fixed_secret_12345() {
    let kangaroo = Kangaroo::from_parameters(small_parameters()).unwrap();

    let sk = scalar_from_u64(12345);
    let pk = public_key(&sk);

    assert_eq!(kangaroo.solve_dlp(&pk, None).unwrap(), Some(12345));
}

#[test]
fn identity_point_solves_to_zero_immediately() {
    let kangaroo = Kangaroo::from_parameters(tiny_parameters()).unwrap();

    // a zero-bit secret is the zero scalar, so its public point is the identity
    let (_, identity) = generate_keypair(0).unwrap();

    assert_eq!(kangaroo.solve_dlp(&identity, Some(1000)).unwrap(), Some(0));
    assert_eq!(kangaroo.solve_dlp(&identity, Some(0)).unwrap(), Some(0));
    assert_eq!(kangaroo.solve_dlp(&identity, None).unwrap(), Some(0));
}

#[test]
fn zero_budget_returns_none_or_an_immediate_hit() {
    let kangaroo = Kangaroo::from_parameters(tiny_parameters()).unwrap();

    let (sk, pk) = generate_keypair(16).unwrap();

    match kangaroo.solve_dlp(&pk, Some(0)).unwrap() {
        None => {}
        Some(found) => assert_eq!(found, scalar_to_u64(&sk)),
    }
}

#[test]
fn helpers_are_pure_functions_of_the_point_bytes() {
    let parameters = Presets::Kangaroo16.parameters();

    let mut enc = vec![0u8; 32];
    enc[30] = 1; // the low eight bytes read big-endian give 256
    assert_eq!(get_last_point_bytes(&enc), 256);
    assert!(is_distinguished(&enc, &parameters));
    assert_eq!(hash(&enc, &parameters), 0);

    let mut enc2 = vec![0u8; 32];
    enc2[31] = 5;
    assert_eq!(get_last_point_bytes(&enc2), 5);
    assert!(!is_distinguished(&enc2, &parameters));
    assert_eq!(hash(&enc2, &parameters), 5);

    // stability: the same bytes give the same answers again
    assert_eq!(is_distinguished(&enc, &parameters), is_distinguished(&enc, &parameters));
    assert_eq!(hash(&enc2, &parameters), hash(&enc2, &parameters));
    assert!(hash(&enc2, &parameters) < parameters.R);
}

#[test]
fn generate_rejects_invalid_parameters() {
    let cases = [
        Parameters { i: 8, W: 8, N: 10, R: 64, secret_size: 0 },
        Parameters { i: 8, W: 8, N: 10, R: 64, secret_size: 65 },
        Parameters { i: 8, W: 0, N: 10, R: 64, secret_size: 16 },
        Parameters { i: 8, W: 8, N: 10, R: 0, secret_size: 16 },
        Parameters { i: 8, W: 12, N: 10, R: 64, secret_size: 16 },
        Parameters { i: 0, W: 8, N: 10, R: 64, secret_size: 16 },
    ];
    for parameters in cases {
        match Table::generate(&parameters) {
            Err(e) => assert_eq!(e, Error::InvalidParameters),
            Ok(_) => panic!("an invalid parameter set was accepted"),
        }
    }
}

#[test]
fn documented_presets_pass_validation_and_a_small_set_generates() {
    assert!(Presets::Kangaroo16.parameters().is_valid());
    assert!(Presets::Kangaroo32.parameters().is_valid());
    assert!(Presets::Kangaroo48.parameters().is_valid());

    assert_eq!(Presets::Kangaroo16.parameters().W, 8);
    assert_eq!(Presets::Kangaroo16.parameters().N, 8000);
    assert_eq!(Presets::Kangaroo32.parameters().W, 2048);
    assert_eq!(Presets::Kangaroo48.parameters().N, 40000);

    let table = Table::generate(&tiny_parameters()).unwrap();
    assert_eq!(table.table.len(), 16);
    assert_eq!(table.s.len(), 64);
    assert_eq!(table.slog.len(), 64);
}

#[test]
fn the_largest_secret_size_generates() {
    let parameters = Parameters { i: 8, W: 8, N: 4, R: 8, secret_size: 64 };
    let table = Table::generate(&parameters).unwrap();
    assert_eq!(table.table.len(), 4);
}

#[test]
fn random_scalars_respect_the_bit_bound() {
    match generate_random_scalar(65) {
        Err(e) => assert_eq!(e, Error::InvalidBitLength),
        Ok(_) => panic!("a 65-bit request was accepted"),
    }
    match generate_keypair(65) {
        Err(e) => assert_eq!(e, Error::InvalidBitLength),
        Ok(_) => panic!("a 65-bit request was accepted"),
    }

    let s8 = generate_random_scalar(8).unwrap();
    assert!(scalar_to_u64(&s8) < 256);

    let s0 = generate_random_scalar(0).unwrap();
    assert_eq!(scalar_to_u64(&s0), 0);
}

#[test]
fn scalar_u64_conversions_invert_each_other() {
    let s = scalar_from_u64(0xdead_beef);
    assert_eq!(scalar_to_u64(&s), 0xdead_beef);

    let (sk, pk) = generate_keypair(16).unwrap();
    assert_eq!(public_key(&sk).encoding(), pk.encoding());
}
