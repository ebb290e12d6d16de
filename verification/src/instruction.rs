//! Vendor-defined constants of the printing device: fixed control commands
//! (opaque byte sequences the device firmware interprets), the advertised
//! name fragment used to pick the printer out of a scan, and the identifier
//! of the write-capable characteristic.  The pipeline never interprets the
//! command bytes; it only transmits them in the required order.

use vstd::prelude::*;

verus! {

/// Identifier of the GATT characteristic all commands are written to.
pub const WRITE_UUID: u128 = 0x0000ff02_0000_1000_8000_00805f9b34fb;

/// The advertised-name fragment a discovered peripheral must contain to be
/// selected as the printer.
pub open spec fn printer_name_prefix_spec() -> Seq<u8> {
    seq![76u8, 117u8, 99u8, 107u8, 80u8]
}

/// The advertised-name fragment as bytes.
pub fn printer_name_prefix() -> (r: Vec<u8>)
    ensures
        r@ == printer_name_prefix_spec(),
{
    let mut r: Vec<u8> = Vec::new();
    r.push(76u8);
    r.push(117u8);
    r.push(99u8);
    r.push(107u8);
    r.push(80u8);
    proof {
        assert(r@ =~= printer_name_prefix_spec());
    }
    r
}

/// One-time setup command: keep the device from powering itself off
/// mid-session.
pub open spec fn disable_shutdown_spec() -> Seq<u8> {
    seq![0x10u8, 0xffu8, 0x12u8, 0x00u8]
}

/// Setup command bytes: disable auto-shutdown.
pub fn disable_shutdown() -> (r: Vec<u8>)
    ensures
        r@ == disable_shutdown_spec(),
{
    let mut r: Vec<u8> = Vec::new();
    r.push(0x10);
    r.push(0xff);
    r.push(0x12);
    r.push(0x00);
    proof {
        assert(r@ =~= disable_shutdown_spec());
    }
    r
}

/// One-time setup command: select the print density the head burns at.
pub open spec fn set_thickness_spec() -> Seq<u8> {
    seq![0x10u8, 0xffu8, 0x10u8, 0x00u8, 0x01u8]
}

/// Setup command bytes: set print density/thickness.
pub fn set_thickness() -> (r: Vec<u8>)
    ensures
        r@ == set_thickness_spec(),
{
    let mut r: Vec<u8> = Vec::new();
    r.push(0x10);
    r.push(0xff);
    r.push(0x10);
    r.push(0x00);
    r.push(0x01);
    proof {
        assert(r@ =~= set_thickness_spec());
    }
    r
}

/// Terminating command: tell the firmware the job's payload is complete.
pub open spec fn stop_print_jobs_spec() -> Seq<u8> {
    seq![0x10u8, 0xffu8, 0xf1u8, 0x45u8]
}

/// Stop command bytes, sent once after the last payload chunk.
pub fn stop_print_jobs() -> (r: Vec<u8>)
    ensures
        r@ == stop_print_jobs_spec(),
{
    let mut r: Vec<u8> = Vec::new();
    r.push(0x10);
    r.push(0xff);
    r.push(0xf1);
    r.push(0x45);
    proof {
        assert(r@ =~= stop_print_jobs_spec());
    }
    r
}

} // verus!
