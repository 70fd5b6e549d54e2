use simple_splitter::salt::{derive_salt, ledger_salt_preimage};

#[test]
fn preimage_is_sequence_then_timestamp_in_xdr() {
    assert_eq!(
        ledger_salt_preimage(5, 0x0102_0304_0506_0708),
        vec![0, 0, 0, 3, 0, 0, 0, 5, 0, 0, 0, 5, 1, 2, 3, 4, 5, 6, 7, 8]
    );
    assert_eq!(
        ledger_salt_preimage(0, 0),
        vec![0, 0, 0, 3, 0, 0, 0, 0, 0, 0, 0, 5, 0, 0, 0, 0, 0, 0, 0, 0]
    );
    assert_eq!(
        ledger_salt_preimage(u32::MAX, u64::MAX),
        vec![
            0, 0, 0, 3, 255, 255, 255, 255, 0, 0, 0, 5, 255, 255, 255, 255, 255, 255, 255, 255
        ]
    );
    assert_eq!(
        ledger_salt_preimage(123_456, 1_700_000_000),
        vec![0, 0, 0, 3, 0, 1, 226, 64, 0, 0, 0, 5, 0, 0, 0, 0, 101, 83, 241, 0]
    );
}

#[test]
fn derived_salt_is_sha256_of_preimage() {
    assert_eq!(
        derive_salt(5, 0x0102_0304_0506_0708),
        [
            82, 64, 47, 94, 61, 87, 233, 148, 158, 35, 202, 24, 80, 232, 159, 115, 241, 63, 248,
            114, 184, 202, 239, 252, 215, 155, 42, 64, 216, 250, 225, 133
        ]
    );
    assert_eq!(
        derive_salt(0, 0),
        [
            190, 164, 253, 44, 77, 148, 254, 168, 63, 38, 87, 43, 154, 253, 167, 55, 87, 251, 36,
            228, 51, 232, 92, 38, 56, 66, 122, 191, 4, 217, 198, 110
        ]
    );
    assert_eq!(
        derive_salt(123_456, 1_700_000_000),
        [
            20, 251, 159, 11, 191, 131, 170, 177, 91, 113, 206, 86, 74, 80, 9, 254, 160, 209, 184,
            210, 168, 165, 39, 32, 30, 213, 41, 245, 214, 187, 162, 237
        ]
    );
}

#[test]
fn derived_salt_is_stable_and_tells_contexts_apart() {
    assert_eq!(derive_salt(7, 9), derive_salt(7, 9));
    assert_ne!(derive_salt(7, 9), derive_salt(8, 9));
    assert_ne!(derive_salt(7, 9), derive_salt(7, 10));
    assert_ne!(derive_salt(7, 9), derive_salt(9, 7));
}
