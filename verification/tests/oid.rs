use snmp2::{Error, Oid};

#[test]
fn oid_from_sub_identifiers() {
    let oid = Oid::from(&[1, 3, 6, 1, 2, 1, 1, 1, 0]).unwrap();
    assert_eq!(oid.as_bytes(), &[0x2Bu8, 6, 1, 2, 1, 1, 1, 0][..]);
    let oid = Oid::from(&[1, 3, 6, 1, 4, 1, 2680, 1, 2, 7, 3, 2, 0]).unwrap();
    assert_eq!(oid.as_bytes(), &[0x2Bu8, 6, 1, 4, 1, 0x94, 0x78, 1, 2, 7, 3, 2, 0][..]);
    assert_eq!(Oid::from(&[0, 0]).unwrap().as_bytes(), &[0u8][..]);
    assert_eq!(Oid::from(&[2, 39]).unwrap().as_bytes(), &[119u8][..]);
}

#[test]
fn oid_from_refuses_what_is_no_identifier() {
    assert_eq!(Oid::from(&[]), Err(Error::ValueUnrepresentable));
    assert_eq!(Oid::from(&[0]), Err(Error::ValueUnrepresentable));
    assert_eq!(Oid::from(&[1]), Err(Error::ValueUnrepresentable));
    assert_eq!(Oid::from(&[3, 1]), Err(Error::ValueUnrepresentable));
    assert_eq!(Oid::from(&[6, 1]), Err(Error::ValueUnrepresentable));
    assert_eq!(Oid::from(&[1, 40]), Err(Error::ValueUnrepresentable));
}

#[test]
fn oid_from_refuses_too_many_sub_identifiers() {
    let mut arcs = vec![1u64, 3];
    arcs.resize(128, 1);
    assert_eq!(Oid::from(&arcs).unwrap().as_bytes().len(), 127);
    arcs.push(1);
    assert_eq!(Oid::from(&arcs), Err(Error::OidTooLong));
}

#[test]
fn oid_equality_is_by_content() {
    let owned = Oid::from(&[1, 3, 6]).unwrap();
    let borrowed = Oid::new(&[0x2B, 6]);
    assert_eq!(owned, borrowed);
    assert_eq!(owned.clone(), owned);
    assert_ne!(owned, Oid::new(&[0x2B, 7]));
    assert_ne!(owned, Oid::new(&[0x2B]));
}

#[test]
fn oid_starts_with_compares_content_octets() {
    let oid = Oid::from(&[1, 3, 6, 1, 6, 3, 15, 1, 1, 2, 0]).unwrap();
    assert!(oid.starts_with(&Oid::from(&[1, 3, 6, 1, 6, 3, 15, 1, 1]).unwrap()));
    assert!(oid.starts_with(&oid));
    assert!(oid.starts_with(&Oid::new(&[])));
    assert!(!oid.starts_with(&Oid::from(&[1, 3, 6, 1, 6, 3, 11, 2, 1]).unwrap()));
    assert!(!Oid::from(&[1, 3, 6]).unwrap().starts_with(&oid));
    // Not the argument handed back: a needle is no prefix of a shorter identifier.
    assert!(!Oid::new(&[0x2B]).starts_with(&Oid::new(&[0x2B, 6])));
}

#[test]
fn oid_nth_reads_sub_identifiers() {
    let oid = Oid::from(&[1, 3, 6, 1, 4, 1, 2680, 1]).unwrap();
    assert_eq!(oid.nth(0), Some(1));
    assert_eq!(oid.nth(1), Some(3));
    assert_eq!(oid.nth(2), Some(6));
    assert_eq!(oid.nth(6), Some(2680));
    assert_eq!(oid.nth(7), Some(1));
    assert_eq!(oid.nth(8), None);
    assert_eq!(Oid::new(&[]).nth(0), None);
}

#[test]
fn oid_nth_of_the_single_zero_octet() {
    // The outside crate reads the identifier 0.0 as the single sub-identifier 0.
    let oid = Oid::from(&[0, 0]).unwrap();
    assert_eq!(oid.nth(0), Some(0));
    assert_eq!(oid.nth(1), None);
}

#[test]
fn oid_nth_gives_up_on_sub_identifiers_beyond_64_bits() {
    let wide = [0x2B, 0x82, 0x80, 0x80, 0x80, 0x80, 0x80, 0x80, 0x80, 0x80, 0x80, 0];
    assert_eq!(Oid::new(&wide).nth(0), None);
    let fits = [0x2B, 0x81, 0x80, 0x80, 0x80, 0x80, 0x80, 0x80, 0x80, 0];
    assert_eq!(Oid::new(&fits).nth(2), Some(1 << 56));
}
