//! The network address of the device that a request comes from.

use vstd::prelude::*;
use vstd::string::*;

use crate::navigation_error::ApiError;
use crate::text;

verus! {

/// The header in which the web host on this machine names the device that it serves.
pub const TRUSTED_CLIENT_ADDRESS_HEADER: &'static str = "x-aionui-client-address";

/// A network address, as the number that its bits stand for.
#[derive(Debug, Clone, Copy, PartialEq, Eq, Structural)]
pub enum IpAddress {
    /// An IPv4 address.
    V4(u32),
    /// An IPv6 address.
    V6(u128),
}

impl IpAddress {
    /// Whether this is an IPv4 address in the form of an IPv6 one, `::ffff:0:0/96`.
    pub open spec fn is_mapped(self) -> bool {
        self matches IpAddress::V6(bits) && bits as int / 0x1_0000_0000 == 0xffff
    }

    /// The address, as an IPv4 one if it is one in the form of an IPv6 address.
    pub open spec fn normalized(self) -> IpAddress {
        match self {
            IpAddress::V6(bits) if self.is_mapped() => IpAddress::V4(
                (bits as int % 0x1_0000_0000) as u32,
            ),
            _ => self,
        }
    }

    /// Whether the address stands for the machine itself: `127.0.0.0/8` or `::1`.
    pub open spec fn is_loopback(self) -> bool {
        match self {
            IpAddress::V4(bits) => bits as int / 0x100_0000 == 127,
            IpAddress::V6(bits) => bits == 1,
        }
    }

    /// Tells whether the address stands for the machine itself.
    pub fn loopback(self) -> (r: bool)
        ensures
            r == self.is_loopback(),
    {
        match self {
            IpAddress::V4(bits) => bits / 0x100_0000 == 127,
            IpAddress::V6(bits) => bits == 1,
        }
    }
}

/// The address, as an IPv4 one if it is one in the form of an IPv6 address.
pub fn normalize_ip(address: IpAddress) -> (r: IpAddress)
    ensures
        r == address.normalized(),
{
    match address {
        IpAddress::V6(bits) => {
            if bits / 0x1_0000_0000 == 0xffff {
                IpAddress::V4((bits % 0x1_0000_0000) as u32)
            } else {
                address
            }
        },
        IpAddress::V4(_) => address,
    }
}

/// What a request has in the trusted header.
#[derive(Debug)]
pub struct ForwardedAddress {
    /// The header's text; none where it is not plain text.
    pub text: Option<String>,
    /// The address that the text stands for, if it does.
    pub parsed: Option<IpAddress>,
}

/// The address that a header names: it must be one address with nothing around it.
pub open spec fn forwarded_device(forwarded: ForwardedAddress) -> Option<IpAddress> {
    match (forwarded.text, forwarded.parsed) {
        (Some(text), Some(address)) => if text@.contains(',') || text::trimmed(text@) != text@ {
            None
        } else {
            Some(address.normalized())
        },
        _ => None,
    }
}

/// The address of the device behind a request, `Ok(None)` where it is this machine, and an error
/// where the header makes no sense. The header counts only when the request comes from this
/// machine, where the web host runs.
pub open spec fn device_behind(peer: Option<IpAddress>, forwarded: Option<ForwardedAddress>) -> Result<
    Option<IpAddress>,
    (),
> {
    match peer {
        None => Ok(None),
        Some(peer) => if !peer.normalized().is_loopback() {
            Ok(Some(peer.normalized()))
        } else {
            match forwarded {
                None => Ok(None),
                Some(forwarded) => match forwarded_device(forwarded) {
                    None => Err(()),
                    Some(address) => if address.is_loopback() {
                        Ok(None)
                    } else {
                        Ok(Some(address))
                    },
                },
            }
        },
    }
}

/// A device that connects directly cannot pass for another one by sending the header.
pub proof fn direct_peer_cannot_be_spoofed(
    peer: IpAddress,
    forwarded: Option<ForwardedAddress>,
)
    requires
        !peer.normalized().is_loopback(),
    ensures
        device_behind(Some(peer), forwarded) == Ok::<Option<IpAddress>, ()>(
            Some(peer.normalized()),
        ),
{
}

/// The address of this machine is never given out as that of a device, nor is one in mapped form.
pub proof fn device_is_never_local(peer: Option<IpAddress>, forwarded: Option<ForwardedAddress>)
    ensures
        device_behind(peer, forwarded) matches Ok(Some(address)) ==> !address.is_loopback()
            && !address.is_mapped(),
{
}

/// The error for a header that makes no sense.
pub fn invalid_device_address() -> (error: ApiError)
    ensures
        error.is(
            400,
            "MNP_SELECTION_DEVICE_ADDRESS_INVALID"@,
            "The AionUi client device address is invalid."@,
        ),
{
    ApiError::coded(
        400,
        "MNP_SELECTION_DEVICE_ADDRESS_INVALID",
        "The AionUi client device address is invalid.".to_owned(),
    )
}

/// The address of the device behind a request that comes from `peer` with `forwarded` in the
/// trusted header.
pub fn selection_device_address(peer: Option<IpAddress>, forwarded: Option<ForwardedAddress>) -> (r:
    Result<Option<IpAddress>, ApiError>)
    ensures
        match device_behind(peer, forwarded) {
            Ok(address) => r == Ok::<Option<IpAddress>, ApiError>(address),
            Err(()) => r matches Err(error) && error.is(
                400,
                "MNP_SELECTION_DEVICE_ADDRESS_INVALID"@,
                "The AionUi client device address is invalid."@,
            ),
        },
{
    let peer_address: IpAddress = match peer {
        None => {
            return Ok(None);
        },
        Some(peer) => normalize_ip(peer),
    };
    if !peer_address.loopback() {
        return Ok(Some(peer_address));
    }
    let forwarded: ForwardedAddress = match forwarded {
        None => {
            return Ok(None);
        },
        Some(forwarded) => forwarded,
    };
    let shown: String = match forwarded.text {
        None => {
            return Err(invalid_device_address());
        },
        Some(shown) => shown,
    };
    if text::has_char(shown.as_str(), ',') || !text::same(text::trim(shown.as_str()), shown.as_str()) {
        return Err(invalid_device_address());
    }
    match forwarded.parsed {
        None => Err(invalid_device_address()),
        Some(address) => {
            let address: IpAddress = normalize_ip(address);
            if address.loopback() {
                Ok(None)
            } else {
                Ok(Some(address))
            }
        },
    }
}

/// A request from another machine comes from the machine that it comes from, whatever its header
/// says. Another machine is one with an IPv4 address outside `127.0.0.0` to `127.255.255.255`, in
/// its own form or as `::ffff:a.b.c.d`, or with any other IPv6 address than `::1`. The device has
/// its address in the IPv4 form where it has one.
pub proof fn remote_peer_is_the_device(
    peer: IpAddress,
    forwarded: Option<ForwardedAddress>,
    device: Result<Option<IpAddress>, ApiError>,
)
    requires
        call_ensures(selection_device_address, (Some(peer), forwarded), device),
    ensures
        match peer {
            IpAddress::V4(bits) => bits < 0x7f00_0000 || bits > 0x7fff_ffff ==> device == Ok::<
                Option<IpAddress>,
                ApiError,
            >(Some(peer)),
            IpAddress::V6(bits) => {
                &&& bits != 1 && (bits < 0xffff_0000_0000 || bits > 0xffff_ffff_ffff) ==> device
                    == Ok::<Option<IpAddress>, ApiError>(Some(peer))
                &&& 0xffff_0000_0000 <= bits < 0xffff_7f00_0000 || 0xffff_7fff_ffff < bits
                    <= 0xffff_ffff_ffff ==> device == Ok::<Option<IpAddress>, ApiError>(
                    Some(IpAddress::V4((bits - 0xffff_0000_0000) as u32)),
                )
            },
        },
{
}

/// A request from this machine, by `127.0.0.0` to `127.255.255.255`, the same as
/// `::ffff:a.b.c.d`, or `::1`, comes from the device that its header names. Without a header it
/// comes from this machine, as it does where the header names this machine. A header that is no
/// text, that stands for no address, that holds a comma or that has whitespace around it is
/// refused.
pub proof fn local_peer_is_believed(
    peer: IpAddress,
    forwarded: Option<ForwardedAddress>,
    device: Result<Option<IpAddress>, ApiError>,
)
    requires
        call_ensures(selection_device_address, (Some(peer), forwarded), device),
        match peer {
            IpAddress::V4(bits) => 0x7f00_0000 <= bits <= 0x7fff_ffff,
            IpAddress::V6(bits) => bits == 1 || 0xffff_7f00_0000 <= bits <= 0xffff_7fff_ffff,
        },
    ensures
        match forwarded {
            None => device == Ok::<Option<IpAddress>, ApiError>(None),
            Some(header) => {
                if header.text is None || header.parsed is None || header.text->0@.contains(',') || (
                header.text->0@.len() > 0 && (text::is_whitespace(header.text->0@[0])
                    || text::is_whitespace(header.text->0@.last()))) {
                    device matches Err(error) && error.is(
                        400,
                        "MNP_SELECTION_DEVICE_ADDRESS_INVALID"@,
                        "The AionUi client device address is invalid."@,
                    )
                } else {
                    match header.parsed->0 {
                        IpAddress::V4(bits) => device == Ok::<Option<IpAddress>, ApiError>(
                            if 0x7f00_0000 <= bits <= 0x7fff_ffff {
                                None
                            } else {
                                Some(IpAddress::V4(bits))
                            },
                        ),
                        IpAddress::V6(bits) => device == Ok::<Option<IpAddress>, ApiError>(
                            if bits == 1 || 0xffff_7f00_0000 <= bits <= 0xffff_7fff_ffff {
                                None
                            } else if 0xffff_0000_0000 <= bits <= 0xffff_ffff_ffff {
                                Some(IpAddress::V4((bits - 0xffff_0000_0000) as u32))
                            } else {
                                Some(IpAddress::V6(bits))
                            },
                        ),
                    }
                }
            },
        },
{
    if let Some(header) = forwarded {
        if let Some(shown) = header.text {
            lemma_nothing_to_trim(shown@);
        }
    }
}

/// A text is trimmed already just where it neither begins nor ends with whitespace.
proof fn lemma_nothing_to_trim(s: Seq<char>)
    ensures
        text::trimmed(s) == s <==> s.len() == 0 || !text::is_whitespace(s[0])
            && !text::is_whitespace(s.last()),
{
    if s.len() > 0 {
        text::lemma_trimmed_is_part(s);
        if text::is_whitespace(s[0]) {
            text::lemma_trimmed_is_part(s.drop_first());
        } else if text::is_whitespace(s.last()) {
            text::lemma_trimmed_end_is_start(s.drop_last());
        }
    }
}

/// Without a known peer there is no device to name.
pub proof fn unknown_peer_is_no_device(
    forwarded: Option<ForwardedAddress>,
    device: Result<Option<IpAddress>, ApiError>,
)
    requires
        call_ensures(selection_device_address, (None, forwarded), device),
    ensures
        device == Ok::<Option<IpAddress>, ApiError>(None),
{
}

/// An address is one of this machine just where it is `127.0.0.0` to `127.255.255.255` or `::1`.
pub proof fn local_addresses(address: IpAddress, local: bool)
    requires
        call_ensures(IpAddress::loopback, (address,), local),
    ensures
        local <==> match address {
            IpAddress::V4(bits) => 0x7f00_0000 <= bits <= 0x7fff_ffff,
            IpAddress::V6(bits) => bits == 1,
        },
{
}

/// Normalizing turns `::ffff:a.b.c.d` into `a.b.c.d` and leaves every other address as it is.
pub proof fn mapped_addresses_are_unwrapped(address: IpAddress, normal: IpAddress)
    requires
        call_ensures(normalize_ip, (address,), normal),
    ensures
        match address {
            IpAddress::V6(bits) if 0xffff_0000_0000 <= bits <= 0xffff_ffff_ffff => normal
                == IpAddress::V4((bits - 0xffff_0000_0000) as u32),
            _ => normal == address,
        },
{
}

} // verus!
