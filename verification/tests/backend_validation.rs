use prequal::backend::{validate_raw_backend, Backend, BackendError, Endpoint};

const DIRECTOR_MAGIC: u32 = 0x3336351d;
const BACKEND_MAGIC: u32 = 0x64c4c7c6;

#[test]
fn valid_backend_record_passes() {
    let r = validate_raw_backend(
        true,
        DIRECTOR_MAGIC,
        DIRECTOR_MAGIC,
        true,
        BACKEND_MAGIC,
        BACKEND_MAGIC,
        true,
    );
    assert_eq!(r, Ok(()));
}

#[test]
fn missing_director_is_director_magic_error() {
    let r = validate_raw_backend(false, 0, DIRECTOR_MAGIC, true, BACKEND_MAGIC, BACKEND_MAGIC, true);
    assert_eq!(r, Err(BackendError::DirectorMagic));
}

#[test]
fn wrong_director_magic_is_director_magic_error() {
    let r = validate_raw_backend(
        true,
        0xdeadbeef,
        DIRECTOR_MAGIC,
        true,
        BACKEND_MAGIC,
        BACKEND_MAGIC,
        true,
    );
    assert_eq!(r, Err(BackendError::DirectorMagic));
}

#[test]
fn wrong_backend_magic_is_backend_magic_error() {
    let r = validate_raw_backend(
        true,
        DIRECTOR_MAGIC,
        DIRECTOR_MAGIC,
        true,
        0,
        BACKEND_MAGIC,
        true,
    );
    assert_eq!(r, Err(BackendError::BackendMagic));
}

#[test]
fn missing_address_is_address_error() {
    let r = validate_raw_backend(
        true,
        DIRECTOR_MAGIC,
        DIRECTOR_MAGIC,
        true,
        BACKEND_MAGIC,
        BACKEND_MAGIC,
        false,
    );
    assert_eq!(r, Err(BackendError::Address));
}

#[test]
fn director_check_precedes_backend_check() {
    // Both records are wrong: the director failure wins.
    let r = validate_raw_backend(true, 0, DIRECTOR_MAGIC, true, 0, BACKEND_MAGIC, false);
    assert_eq!(r, Err(BackendError::DirectorMagic));
}

#[test]
fn backend_identity_is_the_handle() {
    let a = Backend::new("a".to_string(), Endpoint::new(1, 1, 1, 1, 80), 9);
    let b = Backend::new("b".to_string(), Endpoint::new(2, 2, 2, 2, 81), 9);
    let c = Backend::new("a".to_string(), Endpoint::new(1, 1, 1, 1, 80), 10);
    assert_eq!(a, b);
    assert_ne!(a, c);
}

#[test]
fn duplicate_copies_every_field() {
    let a = Backend::new("name".to_string(), Endpoint::new(9, 8, 7, 6, 443), 3);
    let d = a.duplicate();
    assert_eq!(d.name, "name");
    assert_eq!(d.address, Endpoint::new(9, 8, 7, 6, 443));
    assert_eq!(d.handle, 3);
}
