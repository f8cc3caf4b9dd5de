use ip_market_backend::identity::Identity;

#[test]
fn identity_keeps_its_bytes() {
    let id = Identity::from_slice(&[1, 2, 3]).unwrap();
    assert_eq!(id.as_slice(), &[1u8, 2, 3][..]);
    let empty = Identity::from_slice(&[]).unwrap();
    assert_eq!(empty.as_slice().len(), 0);
}

#[test]
fn identity_has_at_most_29_bytes() {
    assert!(Identity::from_slice(&[7u8; 29]).is_some());
    assert!(Identity::from_slice(&[7u8; 30]).is_none());
}

#[test]
fn identities_are_equal_by_bytes() {
    let a = Identity::from_slice(&[1, 2]).unwrap();
    let b = Identity::from_slice(&[1, 2]).unwrap();
    let c = Identity::from_slice(&[1, 3]).unwrap();
    let d = Identity::from_slice(&[1, 2, 0]).unwrap();
    assert!(a.same(&b));
    assert!(!a.same(&c));
    assert!(!a.same(&d));
    assert_eq!(a, b);
    assert_ne!(a, c);
    assert_eq!(a.clone(), a);
}

#[test]
fn anonymous_identity_is_the_byte_four() {
    assert_eq!(Identity::anonymous().as_slice(), &[4u8][..]);
}

#[test]
fn identity_text_is_the_principal_text() {
    assert_eq!(Identity::anonymous().to_text(), "2vxsx-fae");
    assert_eq!(Identity::from_slice(&[]).unwrap().to_text(), "aaaaa-aa");
    let id = Identity::from_slice(&[0xef, 0xcd, 0xab, 0, 0, 0, 0, 0, 1]).unwrap();
    assert_eq!(id.to_text(), "2chl6-4hpzw-vqaaa-aaaaa-c");
    assert_eq!(
        candid::Principal::from_text("2chl6-4hpzw-vqaaa-aaaaa-c").unwrap().as_slice(),
        id.as_slice()
    );
}
