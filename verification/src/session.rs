//! The device session: a state machine that drives one print job over the
//! wireless link.
//!
//! All decisions live here as the pure transition function [`step`]: given
//! the current state and the event the link reported, it says what state
//! comes next and which single action to perform.  The surrounding binary
//! owns the adapter and peripheral handles, performs each action (scan,
//! dwell, connect, enumerate, acknowledged write) and feeds the outcome back
//! as the next event.  Writes are strictly sequential: a packet is written
//! only after the previous write was acknowledged, and any failure aborts
//! the remaining sequence at once.
//!
//! States `Connecting`, `Enumerating`, `SetupDisable` and `SetupDensity`
//! refine the negotiation phase: connect, enumerate characteristics, then
//! the two one-time setup commands, in that order, before any payload.

use vstd::prelude::*;
use crate::instruction::WRITE_UUID;
use crate::instruction::printer_name_prefix;
use crate::instruction::printer_name_prefix_spec;
use crate::protocol::PrintJob;

verus! {

/// Which phase of a job failed; reported to the caller so "device off or out
/// of range" can be told apart from "incompatible device" and "link dropped
/// mid-print".
#[derive(PartialEq, Eq, Structural, Clone, Copy, Debug)]
pub enum FailureKind {
    /// No adapter, no peripheral within the dwell window, or no peripheral
    /// matching the advertised-name filter.
    Discovery,
    /// Connect or service enumeration failed, or the write characteristic
    /// is missing: an incompatible or firmware-mismatched device.
    Negotiation,
    /// An acknowledged write failed; the rest of the job is abandoned.
    Transmission,
}

/// The session's control state.
#[derive(PartialEq, Eq, Structural, Clone, Copy, Debug)]
pub enum SessionState {
    /// Nothing requested yet.
    Idle,
    /// Discovery requested, awaiting confirmation that the scan runs.
    Scanning,
    /// Scan running; after the dwell the peripheral list is awaited.
    Discovering,
    /// Connecting to the matched peripheral.
    Connecting { peripheral: usize },
    /// Connected; enumerating service characteristics.
    Enumerating { peripheral: usize },
    /// Write characteristic found; disable-auto-shutdown write in flight.
    SetupDisable { peripheral: usize, characteristic: usize },
    /// Set-print-density write in flight.
    SetupDensity { peripheral: usize, characteristic: usize },
    /// Payload packet `next` is in flight.
    Sending { peripheral: usize, characteristic: usize, next: usize },
    /// The whole job, stop packet included, was acknowledged.
    Done,
    /// The job was aborted; no partial job is resumed or retried.
    Failed { kind: FailureKind },
}

/// What the wireless link reported back after the last action.
pub enum SessionEvent {
    /// Start the session.
    Begin,
    /// The adapter confirmed the scan is running.
    ScanStarted,
    /// The scan could not be started.
    ScanFailed,
    /// The peripheral list after the dwell: each entry the advertised local
    /// name of one peripheral, if it advertised one.
    Peripherals { names: Vec<Option<Vec<u8>>> },
    /// The peripheral list could not be read.
    ListFailed,
    /// The connection is up.
    Connected,
    /// The connection attempt failed.
    ConnectFailed,
    /// The peripheral's characteristic identifiers, in discovery order.
    Services { characteristics: Vec<u128> },
    /// Service enumeration failed.
    EnumerationFailed,
    /// The acknowledged write completed.
    WriteOk,
    /// The acknowledged write failed or timed out.
    WriteFailed,
}

/// The single next thing the surrounding binary must do.
#[derive(PartialEq, Eq, Structural, Clone, Copy, Debug)]
pub enum SessionAction {
    /// Ask the adapter to begin discovery.
    StartScan,
    /// Wait the fixed dwell interval, then read the peripheral list.
    DwellAndList,
    /// Connect to the peripheral at this index of the reported list.
    Connect { peripheral: usize },
    /// Enumerate the connected peripheral's service characteristics.
    EnumerateServices,
    /// Write the disable-auto-shutdown command to this characteristic,
    /// acknowledged.
    WriteDisableShutdown { characteristic: usize },
    /// Write the set-print-density command to this characteristic,
    /// acknowledged.
    WriteSetThickness { characteristic: usize },
    /// Write job packet `packet` to this characteristic, acknowledged.
    WritePacket { characteristic: usize, packet: usize },
    /// Nothing further: the session is in a terminal state.
    Finish,
}

/// Whether `needle` occurs as a contiguous run inside `hay` at offset `i`.
pub open spec fn contains_at(hay: Seq<u8>, needle: Seq<u8>, i: int) -> bool {
    0 <= i && i + needle.len() <= hay.len() && hay.subrange(i, i + needle.len()) == needle
}

/// Whether `needle` occurs anywhere inside `hay`.
pub open spec fn contains_spec(hay: Seq<u8>, needle: Seq<u8>) -> bool {
    exists|i: int| contains_at(hay, needle, i)
}

/// Whether an advertised name selects the printer: present and containing
/// the known name fragment.
pub open spec fn name_matches(name: Option<Vec<u8>>) -> bool {
    name is Some && contains_spec(name->0@, printer_name_prefix_spec())
}

/// Index of the first matching peripheral at or after `k`.
pub open spec fn first_match(names: Seq<Option<Vec<u8>>>, k: int) -> Option<int>
    decreases names.len() - k,
{
    if k < 0 || k >= names.len() {
        None
    } else if name_matches(names[k]) {
        Some(k)
    } else {
        first_match(names, k + 1)
    }
}

/// Index of the first write-capable characteristic at or after `k`.
pub open spec fn first_write_char(ids: Seq<u128>, k: int) -> Option<int>
    decreases ids.len() - k,
{
    if k < 0 || k >= ids.len() {
        None
    } else if ids[k] == WRITE_UUID {
        Some(k)
    } else {
        first_write_char(ids, k + 1)
    }
}

/// The transition function: next state and next action for a state, an
/// event, and the job's packet count.  Any event a state does not expect
/// fails the session with that state's own failure category; terminal states
/// absorb everything.
pub open spec fn step_spec(s: SessionState, e: SessionEvent, job_len: int) -> (SessionState,
    SessionAction,
) {
    match (s, e) {
        (SessionState::Idle, SessionEvent::Begin) => (
            SessionState::Scanning,
            SessionAction::StartScan,
        ),
        (SessionState::Scanning, SessionEvent::ScanStarted) => (
            SessionState::Discovering,
            SessionAction::DwellAndList,
        ),
        (SessionState::Discovering, SessionEvent::Peripherals { names }) => {
            match first_match(names@, 0) {
                Some(i) => (
                    SessionState::Connecting { peripheral: i as usize },
                    SessionAction::Connect { peripheral: i as usize },
                ),
                None => (
                    SessionState::Failed { kind: FailureKind::Discovery },
                    SessionAction::Finish,
                ),
            }
        },
        (SessionState::Connecting { peripheral }, SessionEvent::Connected) => (
            SessionState::Enumerating { peripheral },
            SessionAction::EnumerateServices,
        ),
        (SessionState::Enumerating { peripheral }, SessionEvent::Services { characteristics }) => {
            match first_write_char(characteristics@, 0) {
                Some(c) => (
                    SessionState::SetupDisable { peripheral, characteristic: c as usize },
                    SessionAction::WriteDisableShutdown { characteristic: c as usize },
                ),
                None => (
                    SessionState::Failed { kind: FailureKind::Negotiation },
                    SessionAction::Finish,
                ),
            }
        },
        (SessionState::SetupDisable { peripheral, characteristic }, SessionEvent::WriteOk) => (
            SessionState::SetupDensity { peripheral, characteristic },
            SessionAction::WriteSetThickness { characteristic },
        ),
        (SessionState::SetupDensity { peripheral, characteristic }, SessionEvent::WriteOk) => {
            if job_len > 0 {
                (
                    SessionState::Sending { peripheral, characteristic, next: 0 },
                    SessionAction::WritePacket { characteristic, packet: 0 },
                )
            } else {
                (SessionState::Done, SessionAction::Finish)
            }
        },
        (SessionState::Sending { peripheral, characteristic, next }, SessionEvent::WriteOk) => {
            if next + 1 < job_len {
                (
                    SessionState::Sending {
                        peripheral,
                        characteristic,
                        next: (next + 1) as usize,
                    },
                    SessionAction::WritePacket { characteristic, packet: (next + 1) as usize },
                )
            } else {
                (SessionState::Done, SessionAction::Finish)
            }
        },
        (SessionState::Done, _) => (SessionState::Done, SessionAction::Finish),
        (SessionState::Failed { kind }, _) => (
            SessionState::Failed { kind },
            SessionAction::Finish,
        ),
        (SessionState::Idle, _) => (
            SessionState::Failed { kind: FailureKind::Discovery },
            SessionAction::Finish,
        ),
        (SessionState::Scanning, _) => (
            SessionState::Failed { kind: FailureKind::Discovery },
            SessionAction::Finish,
        ),
        (SessionState::Discovering, _) => (
            SessionState::Failed { kind: FailureKind::Discovery },
            SessionAction::Finish,
        ),
        (SessionState::Connecting { .. }, _) => (
            SessionState::Failed { kind: FailureKind::Negotiation },
            SessionAction::Finish,
        ),
        (SessionState::Enumerating { .. }, _) => (
            SessionState::Failed { kind: FailureKind::Negotiation },
            SessionAction::Finish,
        ),
        (SessionState::SetupDisable { .. }, _) => (
            SessionState::Failed { kind: FailureKind::Transmission },
            SessionAction::Finish,
        ),
        (SessionState::SetupDensity { .. }, _) => (
            SessionState::Failed { kind: FailureKind::Transmission },
            SessionAction::Finish,
        ),
        (SessionState::Sending { .. }, _) => (
            SessionState::Failed { kind: FailureKind::Transmission },
            SessionAction::Finish,
        ),
    }
}

/// Whether `needle` occurs as a contiguous run inside `hay`.
pub fn contains_bytes(hay: &Vec<u8>, needle: &Vec<u8>) -> (r: bool)
    ensures
        r == contains_spec(hay@, needle@),
{
    if needle.len() == 0 {
        proof {
            assert(hay@.subrange(0, 0) =~= needle@);
            assert(contains_at(hay@, needle@, 0));
        }
        return true;
    }
    if needle.len() > hay.len() {
        proof {
            assert forall|i: int| !contains_at(hay@, needle@, i) by {}
        }
        return false;
    }
    let hlen = hay.len();
    let nlen = needle.len();
    let last_start = hlen - nlen;
    let mut i: usize = 0;
    while i <= last_start
        invariant
            1 <= nlen,
            hlen == hay@.len(),
            nlen == needle@.len(),
            i <= last_start + 1,
            last_start == hlen - nlen,
            forall|x: int| 0 <= x < i ==> !contains_at(hay@, needle@, x),
        decreases last_start + 1 - i,
    {
        let mut j: usize = 0;
        let mut matched = true;
        while matched && j < nlen
            invariant
                1 <= nlen,
                hlen == hay@.len(),
                nlen == needle@.len(),
                i <= hlen - nlen,
                j <= nlen,
                matched ==> hay@.subrange(i as int, i as int + j as int) =~= needle@.subrange(
                    0,
                    j as int,
                ),
                !matched ==> !contains_at(hay@, needle@, i as int),
            decreases needle@.len() - j + if matched {
                1int
            } else {
                0int
            },
        {
            if hay[i + j] != needle[j] {
                proof {
                    if contains_at(hay@, needle@, i as int) {
                        let full = hay@.subrange(i as int, i as int + needle@.len() as int);
                        assert(full[j as int] == hay@[i as int + j as int]);
                        assert(full[j as int] == needle@[j as int]);
                    }
                }
                matched = false;
            } else {
                let ghost pre = hay@.subrange(i as int, i as int + j as int);
                j = j + 1;
                proof {
                    assert(hay@.subrange(i as int, i as int + j as int) =~= pre.push(
                        hay@[i as int + j as int - 1],
                    ));
                    assert(needle@.subrange(0, j as int) =~= needle@.subrange(0, j as int - 1).push(
                        needle@[j as int - 1],
                    ));
                }
            }
        }
        if matched {
            proof {
                assert(j == needle@.len());
                assert(needle@.subrange(0, needle@.len() as int) =~= needle@);
                assert(contains_at(hay@, needle@, i as int));
            }
            return true;
        }
        i = i + 1;
    }
    proof {
        assert forall|x: int| !contains_at(hay@, needle@, x) by {
            if 0 <= x && x + needle@.len() <= hay@.len() {
                assert(x <= last_start);
                assert(x < i);
            }
        }
    }
    false
}

proof fn lemma_first_match_skip(names: Seq<Option<Vec<u8>>>, k: int)
    requires
        0 <= k <= names.len(),
        forall|j: int| 0 <= j < k ==> !name_matches(#[trigger] names[j]),
    ensures
        first_match(names, 0) == first_match(names, k),
    decreases k,
{
    if k > 0 {
        lemma_first_match_skip(names, k - 1);
    }
}

proof fn lemma_first_char_skip(ids: Seq<u128>, k: int)
    requires
        0 <= k <= ids.len(),
        forall|j: int| 0 <= j < k ==> #[trigger] ids[j] != WRITE_UUID,
    ensures
        first_write_char(ids, 0) == first_write_char(ids, k),
    decreases k,
{
    if k > 0 {
        lemma_first_char_skip(ids, k - 1);
    }
}

/// Index of the first peripheral whose advertised name contains the printer
/// name fragment.
pub fn find_printer(names: &Vec<Option<Vec<u8>>>) -> (r: Option<usize>)
    ensures
        match r {
            Some(i) => first_match(names@, 0) == Some(i as int),
            None => first_match(names@, 0) is None,
        },
{
    let prefix = printer_name_prefix();
    let mut k: usize = 0;
    while k < names.len()
        invariant
            k <= names@.len(),
            prefix@ == printer_name_prefix_spec(),
            forall|j: int| 0 <= j < k ==> !name_matches(#[trigger] names@[j]),
        decreases names@.len() - k,
    {
        let hit = match &names[k] {
            Some(name) => contains_bytes(name, &prefix),
            None => false,
        };
        if hit {
            proof {
                lemma_first_match_skip(names@, k as int);
                assert(name_matches(names@[k as int]));
            }
            return Some(k);
        }
        proof {
            assert(!name_matches(names@[k as int]));
        }
        k = k + 1;
    }
    proof {
        lemma_first_match_skip(names@, names@.len() as int);
    }
    None
}

/// Index of the write-capable characteristic among the enumerated ones.
pub fn find_write_characteristic(ids: &Vec<u128>) -> (r: Option<usize>)
    ensures
        match r {
            Some(i) => first_write_char(ids@, 0) == Some(i as int),
            None => first_write_char(ids@, 0) is None,
        },
{
    let mut k: usize = 0;
    while k < ids.len()
        invariant
            k <= ids@.len(),
            forall|j: int| 0 <= j < k ==> #[trigger] ids@[j] != WRITE_UUID,
        decreases ids@.len() - k,
    {
        if ids[k] == WRITE_UUID {
            proof {
                lemma_first_char_skip(ids@, k as int);
            }
            return Some(k);
        }
        k = k + 1;
    }
    proof {
        lemma_first_char_skip(ids@, ids@.len() as int);
    }
    None
}

/// Performs one transition of the session state machine.
pub fn step(s: SessionState, e: SessionEvent, job: &PrintJob) -> (r: (SessionState, SessionAction))
    ensures
        r == step_spec(s, e, job.packets@.len() as int),
{
    let job_len = job.packets.len();
    match (s, e) {
        (SessionState::Idle, SessionEvent::Begin) => (
            SessionState::Scanning,
            SessionAction::StartScan,
        ),
        (SessionState::Scanning, SessionEvent::ScanStarted) => (
            SessionState::Discovering,
            SessionAction::DwellAndList,
        ),
        (SessionState::Discovering, SessionEvent::Peripherals { names }) => {
            match find_printer(&names) {
                Some(i) => (
                    SessionState::Connecting { peripheral: i },
                    SessionAction::Connect { peripheral: i },
                ),
                None => (
                    SessionState::Failed { kind: FailureKind::Discovery },
                    SessionAction::Finish,
                ),
            }
        },
        (SessionState::Connecting { peripheral }, SessionEvent::Connected) => (
            SessionState::Enumerating { peripheral },
            SessionAction::EnumerateServices,
        ),
        (SessionState::Enumerating { peripheral }, SessionEvent::Services { characteristics }) => {
            match find_write_characteristic(&characteristics) {
                Some(c) => (
                    SessionState::SetupDisable { peripheral, characteristic: c },
                    SessionAction::WriteDisableShutdown { characteristic: c },
                ),
                None => (
                    SessionState::Failed { kind: FailureKind::Negotiation },
                    SessionAction::Finish,
                ),
            }
        },
        (SessionState::SetupDisable { peripheral, characteristic }, SessionEvent::WriteOk) => (
            SessionState::SetupDensity { peripheral, characteristic },
            SessionAction::WriteSetThickness { characteristic },
        ),
        (SessionState::SetupDensity { peripheral, characteristic }, SessionEvent::WriteOk) => {
            if job_len > 0 {
                (
                    SessionState::Sending { peripheral, characteristic, next: 0 },
                    SessionAction::WritePacket { characteristic, packet: 0 },
                )
            } else {
                (SessionState::Done, SessionAction::Finish)
            }
        },
        (SessionState::Sending { peripheral, characteristic, next }, SessionEvent::WriteOk) => {
            if next < job_len && next + 1 < job_len {
                (
                    SessionState::Sending { peripheral, characteristic, next: next + 1 },
                    SessionAction::WritePacket { characteristic, packet: next + 1 },
                )
            } else {
                (SessionState::Done, SessionAction::Finish)
            }
        },
        (SessionState::Done, _) => (SessionState::Done, SessionAction::Finish),
        (SessionState::Failed { kind }, _) => (
            SessionState::Failed { kind },
            SessionAction::Finish,
        ),
        (SessionState::Idle, _) => (
            SessionState::Failed { kind: FailureKind::Discovery },
            SessionAction::Finish,
        ),
        (SessionState::Scanning, _) => (
            SessionState::Failed { kind: FailureKind::Discovery },
            SessionAction::Finish,
        ),
        (SessionState::Discovering, _) => (
            SessionState::Failed { kind: FailureKind::Discovery },
            SessionAction::Finish,
        ),
        (SessionState::Connecting { .. }, _) => (
            SessionState::Failed { kind: FailureKind::Negotiation },
            SessionAction::Finish,
        ),
        (SessionState::Enumerating { .. }, _) => (
            SessionState::Failed { kind: FailureKind::Negotiation },
            SessionAction::Finish,
        ),
        (SessionState::SetupDisable { .. }, _) => (
            SessionState::Failed { kind: FailureKind::Transmission },
            SessionAction::Finish,
        ),
        (SessionState::SetupDensity { .. }, _) => (
            SessionState::Failed { kind: FailureKind::Transmission },
            SessionAction::Finish,
        ),
        (SessionState::Sending { .. }, _) => (
            SessionState::Failed { kind: FailureKind::Transmission },
            SessionAction::Finish,
        ),
    }
}

/// Discovery-failure law: a peripheral list with no matching printer — the
/// empty list after the scan dwell in particular — fails the session as a
/// discovery error, never a negotiation or transmission one.
pub proof fn lemma_discovery_failure(names: Vec<Option<Vec<u8>>>, job_len: int)
    requires
        first_match(names@, 0) is None,
    ensures
        step_spec(SessionState::Discovering, SessionEvent::Peripherals { names }, job_len) == (
            SessionState::Failed { kind: FailureKind::Discovery },
            SessionAction::Finish,
        ),
{
}

/// The empty peripheral list never matches anything.
pub proof fn lemma_empty_list_no_match(names: Vec<Option<Vec<u8>>>)
    requires
        names@.len() == 0,
    ensures
        first_match(names@, 0) is None,
{
}

/// Ordering law: while sending, each acknowledged write advances to the
/// packet with the next higher offset, and the session completes only after
/// the last packet of the job.
pub proof fn lemma_sending_order(p: usize, c: usize, next: usize, job_len: int)
    requires
        0 <= next < job_len,
    ensures
        next + 1 < job_len ==> step_spec(
            SessionState::Sending { peripheral: p, characteristic: c, next },
            SessionEvent::WriteOk,
            job_len,
        ) == (
            SessionState::Sending { peripheral: p, characteristic: c, next: (next + 1) as usize },
            SessionAction::WritePacket { characteristic: c, packet: (next + 1) as usize },
        ),
        next + 1 >= job_len ==> step_spec(
            SessionState::Sending { peripheral: p, characteristic: c, next },
            SessionEvent::WriteOk,
            job_len,
        ) == (SessionState::Done, SessionAction::Finish),
{
}

} // verus!
