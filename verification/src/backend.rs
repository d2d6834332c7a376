//! Backend identity: an immutable (name, address, handle) record whose
//! identity is decided by the opaque host handle alone.

use vstd::prelude::*;

verus! {

/// A plain IPv4 network endpoint: four address octets and a port.
#[derive(Debug, Clone, Copy, PartialEq, Eq, Structural)]
pub struct Endpoint {
    pub ip0: u8,
    pub ip1: u8,
    pub ip2: u8,
    pub ip3: u8,
    pub port: u16,
}

impl Endpoint {
    pub fn new(ip0: u8, ip1: u8, ip2: u8, ip3: u8, port: u16) -> (e: Endpoint)
        ensures
            e == (Endpoint { ip0, ip1, ip2, ip3, port }),
    {
        Endpoint { ip0, ip1, ip2, ip3, port }
    }
}

/// Mathematical value of a [`Backend`]: the name as a character sequence,
/// the endpoint, and the opaque identity handle.
pub ghost struct BackendView {
    pub name: Seq<char>,
    pub address: Endpoint,
    pub handle: u64,
}

/// One upstream server. Two backends are the same backend exactly when
/// their opaque `handle` tokens are equal; `name` and `address` are
/// informational.
#[derive(Debug, Clone)]
pub struct Backend {
    pub name: String,
    pub address: Endpoint,
    pub handle: u64,
}

impl View for Backend {
    type V = BackendView;

    open spec fn view(&self) -> BackendView {
        BackendView { name: self.name@, address: self.address, handle: self.handle }
    }
}

impl Backend {
    pub fn new(name: String, address: Endpoint, handle: u64) -> (b: Backend)
        ensures
            b@.name == name@,
            b@.address == address,
            b@.handle == handle,
    {
        Backend { name, address, handle }
    }

    /// A fresh record carrying the same name, address and handle.
    pub fn duplicate(&self) -> (b: Backend)
        ensures
            b@ == self@,
    {
        Backend { name: self.name.clone(), address: self.address, handle: self.handle }
    }
}

impl PartialEq for Backend {
    fn eq(&self, other: &Backend) -> (r: bool) {
        self.handle == other.handle
    }
}

impl vstd::std_specs::cmp::PartialEqSpecImpl for Backend {
    open spec fn obeys_eq_spec() -> bool {
        true
    }

    open spec fn eq_spec(&self, other: &Backend) -> bool {
        self.handle == other.handle
    }
}

impl Eq for Backend {}

/// Why a host-supplied backend record was rejected on admission.
#[derive(Debug, Clone, Copy, PartialEq, Eq, Structural)]
pub enum BackendError {
    /// The inner backend record is absent or its magic tag is wrong.
    BackendMagic,
    /// The director record is absent or its magic tag is wrong.
    DirectorMagic,
    /// The backend carries no usable IPv4 endpoint.
    Address,
}

/// Structural validation of a host-supplied backend record, decided over
/// the plain facts that the host layer reads out of it: whether each
/// record is present, its magic tag, and whether an IPv4 endpoint exists.
///
/// The director record is checked first, then the backend record, then
/// the address, and the first failure wins.
pub fn validate_raw_backend(
    director_present: bool,
    director_magic: u32,
    expected_director_magic: u32,
    backend_present: bool,
    backend_magic: u32,
    expected_backend_magic: u32,
    has_ipv4: bool,
) -> (r: Result<(), BackendError>)
    ensures
        r == (if !director_present || director_magic != expected_director_magic {
            Result::<(), BackendError>::Err(BackendError::DirectorMagic)
        } else if !backend_present || backend_magic != expected_backend_magic {
            Result::<(), BackendError>::Err(BackendError::BackendMagic)
        } else if !has_ipv4 {
            Result::<(), BackendError>::Err(BackendError::Address)
        } else {
            Result::<(), BackendError>::Ok(())
        }),
{
    if !director_present || director_magic != expected_director_magic {
        Err(BackendError::DirectorMagic)
    } else if !backend_present || backend_magic != expected_backend_magic {
        Err(BackendError::BackendMagic)
    } else if !has_ipv4 {
        Err(BackendError::Address)
    } else {
        Ok(())
    }
}

} // verus!
