//! What holds of what calls to the operating system come back with.

use vstd::prelude::*;

use crate::sys::{Events, Status};

verus! {

/// Whether anything has come about, and whether to read, by each thing that can: a writable
/// or an invalid descriptor is nothing to read from.
pub proof fn events_that_count(events: Events)
    ensures
        !events.spec_any() <==> events == (Events {
            readable: false,
            writable: false,
            hung_up: false,
            failed: false,
            invalid: false,
        }),
        events.readable || events.hung_up || events.failed ==> events.spec_wants_read(),
        events.spec_wants_read() ==> events.readable || events.hung_up || events.failed,
{
}

/// Nothing is known of a process as long as a wait finds nothing. One that ended by itself
/// ended with its exit code, which stands in the second byte of its wait status, and one
/// that a signal ended ended with 128 and the signal, which stands in the lowest seven bits;
/// a stopped one has not ended.
pub proof fn wait_statuses(waited: i32, status: i32)
    ensures
        waited == 0 ==> crate::sys::status_of(waited, status) == Status::Running,
        waited != 0 && status & 0x7f == 0 ==> crate::sys::status_of(waited, status)
            == Status::Exited((status >> 8) & 0xff),
        waited != 0 && status & 0x7f != 0 && status & 0x7f != 0x7f ==> crate::sys::status_of(
            waited,
            status,
        ) == Status::Exited((128 + (status & 0x7f)) as i32),
        waited != 0 && status & 0x7f == 0x7f ==> crate::sys::status_of(waited, status)
            == Status::Running,
{
    let low = status & 0x7f;
    let high = (status >> 8) & 0xff;
    assert(0 <= low <= 127 && 0 <= high <= 255) by (bit_vector)
        requires
            low == status & 0x7f,
            high == (status >> 8) & 0xff,
    ;
    low_bits(status);
    high_bits(status);
}

proof fn low_bits(status: i32)
    ensures
        status & 0x7f == crate::sys::signal_of(status),
{
    let bits = status as u32;
    if status >= 0 {
        assert(bits == status);
        assert(bits & 0x7f == bits % 128) by (bit_vector);
        assert(status & 0x7f == (bits & 0x7f) as i32) by (bit_vector)
            requires
                bits == status as u32,
        ;
    } else {
        assert(bits == status + 0x1_0000_0000) by (bit_vector)
            requires
                bits == status as u32,
                status < 0,
        ;
        assert(bits & 0x7f == bits % 128) by (bit_vector);
        assert(status & 0x7f == (bits & 0x7f) as i32) by (bit_vector)
            requires
                bits == status as u32,
        ;
        assert((status + 0x1_0000_0000) % 128 == status as int % 128);
    }
}

proof fn high_bits(status: i32)
    ensures
        (status >> 8) & 0xff == crate::sys::exit_code_of(status),
{
    let bits = status as u32;
    assert((status >> 8) & 0xff == (bits / 256 % 256) as i32) by (bit_vector)
        requires
            bits == status as u32,
    ;
    if status >= 0 {
        assert(bits == status);
    } else {
        assert(bits == status + 0x1_0000_0000) by (bit_vector)
            requires
                bits == status as u32,
                status < 0,
        ;
        assert((status + 0x1_0000_0000) / 256 == status as int / 256 + 0x100_0000);
        assert((status as int / 256 + 0x100_0000) % 256 == (status as int / 256) % 256);
    }
}

} // verus!
