use vstd::prelude::*;

use crate::profile::STATUS_SUCCESS;

verus! {

/// The ways a session with the driver fails.
#[derive(Clone, Copy, Debug, PartialEq, Eq, Structural)]
pub enum DriverError {
    /// No connection to the driver could be opened.
    Connection,
    /// The driver refused to negotiate a protocol version.
    Init,
    /// The driver could not list its profile codes.
    Enumeration,
}

/// The protocol version that initialisation negotiated, given the status the
/// driver returned and the version numbers it wrote.
pub fn negotiated_version(init_status: i32, major: i32, minor: i32) -> (r: Result<(i32, i32), DriverError>)
    ensures
        init_status == STATUS_SUCCESS ==> r == Ok::<(i32, i32), DriverError>((major, minor)),
        init_status != STATUS_SUCCESS ==> r == Err::<(i32, i32), DriverError>(DriverError::Init),
{
    if init_status != STATUS_SUCCESS {
        return Err(DriverError::Init);
    }
    Ok((major, minor))
}

/// The text shown when the driver gives no vendor string.
pub open spec fn unknown_vendor() -> Seq<char> {
    seq!['<', 'u', 'n', 'k', 'n', 'o', 'w', 'n', '>']
}

/// The vendor string to show: the driver's own, or `<unknown>` where it gave
/// none or an empty one.
pub fn vendor_or_unknown(raw: Option<String>) -> (r: String)
    ensures
        match raw {
            Some(s) => if s@.len() > 0 {
                r@ == s@
            } else {
                r@ == unknown_vendor()
            },
            None => r@ == unknown_vendor(),
        },
{
    match raw {
        Some(s) => {
            if s.as_str().unicode_len() > 0 {
                return s;
            }
        },
        None => {},
    }
    let r = String::from_str("<unknown>");
    proof {
        reveal_strlit("<unknown>");
        assert(r@ =~= unknown_vendor());
    }
    r
}

} // verus!
