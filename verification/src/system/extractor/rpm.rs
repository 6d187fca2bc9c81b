//! RPM packages.
use crate::error::{Result, WaxError};
use vstd::prelude::*;

verus! {

/// Whether an RPM can be unpacked with the tools that are there. Nothing is
/// tracked of what it holds.
pub fn extract_tracked(has_rpm2cpio: bool, has_cpio: bool) -> (r: Result<(Vec<String>, Vec<String>)>)
    ensures
        if has_rpm2cpio && has_cpio {
            r matches Ok((files, dirs)) && files@.len() == 0 && dirs@.len() == 0
        } else {
            r matches Err(WaxError::InstallError(m)) && m@
                == "RPM extraction requires rpm2cpio and cpio to be installed. Pure-Rust RPM parsing is not yet implemented."@
        },
{
    match extract(has_rpm2cpio, has_cpio) {
        Ok(()) => Ok((Vec::new(), Vec::new())),
        Err(e) => Err(e),
    }
}

/// Whether an RPM can be unpacked with the tools that are there.
pub fn extract(has_rpm2cpio: bool, has_cpio: bool) -> (r: Result<()>)
    ensures
        if has_rpm2cpio && has_cpio {
            r is Ok
        } else {
            r matches Err(WaxError::InstallError(m)) && m@
                == "RPM extraction requires rpm2cpio and cpio to be installed. Pure-Rust RPM parsing is not yet implemented."@
        },
{
    if has_rpm2cpio && has_cpio {
        Ok(())
    } else {
        Err(
            WaxError::InstallError(
                String::from_str(
                    "RPM extraction requires rpm2cpio and cpio to be installed. Pure-Rust RPM parsing is not yet implemented.",
                ),
            ),
        )
    }
}

}
