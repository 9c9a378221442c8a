//! Choosing a seed from the host's network interfaces.
use vstd::prelude::*;

verus! {

/// What the seed choice reads of one network interface.
#[derive(Debug, Clone, Copy)]
pub struct NetInterface {
    /// The interface is a loopback interface.
    pub loopback: bool,
    /// The interface is administratively up.
    pub up: bool,
    /// The interface's hardware (link-layer) address, where it has one.
    pub hardware_addr: Option<[u8; 6]>,
}

/// Why no seed could be taken from the interfaces.
#[derive(Debug, Clone, Copy, PartialEq, Eq, Structural)]
pub enum SeedError {
    /// No interface is both up and not a loopback interface.
    NoInterface,
    /// The first suitable interface has no hardware address.
    NoHardwareAddress,
}

impl NetInterface {
    /// An interface qualifies when it is up and not a loopback interface.
    pub open spec fn suitable(self) -> bool {
        !self.loopback && self.up
    }
}

/// The hardware address of the first suitable interface in `interfaces`.
pub open spec fn chosen_address(interfaces: Seq<NetInterface>) -> Result<Seq<u8>, SeedError>
    decreases interfaces.len(),
{
    if interfaces.len() == 0 {
        Err(SeedError::NoInterface)
    } else if interfaces[0].suitable() {
        match interfaces[0].hardware_addr {
            Some(addr) => Ok(addr@),
            None => Err(SeedError::NoHardwareAddress),
        }
    } else {
        chosen_address(interfaces.subrange(1, interfaces.len() as int))
    }
}

/// Picks the seed for this host: the hardware address of the first interface, in
/// the order given, that is up and not a loopback interface.
pub fn get_non_loopback_address(interfaces: &[NetInterface]) -> (found: Result<[u8; 6], SeedError>)
    ensures
        match found {
            Ok(addr) => chosen_address(interfaces@) == Ok::<Seq<u8>, SeedError>(addr@),
            Err(e) => chosen_address(interfaces@) == Err::<Seq<u8>, SeedError>(e),
        },
{
    let n = interfaces.len();
    let mut i: usize = 0;
    assert(interfaces@.subrange(0, n as int) =~= interfaces@);
    while i < n
        invariant
            i <= n,
            n == interfaces@.len(),
            chosen_address(interfaces@) == chosen_address(interfaces@.subrange(i as int, n as int)),
        decreases n - i,
    {
        let interface = &interfaces[i];
        let ghost rest = interfaces@.subrange(i as int, n as int);
        assert(rest[0] == interfaces@[i as int]);
        if !interface.loopback && interface.up {
            match interface.hardware_addr {
                Some(addr) => {
                    return Ok(addr);
                },
                None => {
                    return Err(SeedError::NoHardwareAddress);
                },
            }
        }
        assert(rest.subrange(1, rest.len() as int) =~= interfaces@.subrange(i + 1, n as int));
        i = i + 1;
    }
    Err(SeedError::NoInterface)
}

} // verus!
