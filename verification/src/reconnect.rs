//! The reconnection protocol: after a device is switched from cable to
//! network transport its identifier changes, so the same physical device must
//! be re-identified among freshly enumerated devices from secondary signals —
//! its old serial, its snapshotted model, or its being the only cable-attached
//! device left — under a bounded retry budget.  Everything here is the pure
//! decision logic; the surrounding application performs the tool calls and
//! the waits between attempts, and may abandon the search when cancelled.

use vstd::prelude::*;
use crate::text::{
    spec_contains, spec_contains_ci, contains_str, contains_ci, concat_str, eq_str,
};
use crate::catalog::{Device, ConnectionType};

verus! {

/// The typed outcome of a network-connect request, classified from the
/// tool's free-text response.
#[derive(Debug, Clone, PartialEq, Eq)]
pub enum ConnectOutcome {
    Success,
    Unreachable(String),
    TimedOut(String),
    Unknown(String),
}

/// The tool reported the connection as established (a fresh connection and
/// an already-standing one both count).
pub open spec fn spec_connect_success(t: Seq<char>) -> bool {
    spec_contains(t, "connected"@) || spec_contains(t, "already connected"@)
}

pub open spec fn spec_connect_unreachable(t: Seq<char>) -> bool {
    spec_contains(t, "unable to connect"@) || spec_contains(t, "connection refused"@)
}

pub open spec fn spec_connect_timeout(t: Seq<char>) -> bool {
    spec_contains(t, "timeout"@)
}

/// Classifies the tool's connect response into a typed outcome, with
/// actionable guidance where the cause is a known environmental issue; text
/// matching none of the known wordings is preserved verbatim rather than
/// guessed at.
pub fn classify_connect_response(response: &str) -> (r: ConnectOutcome)
    ensures
        spec_connect_success(response@) ==> r == ConnectOutcome::Success,
        (!spec_connect_success(response@) && spec_connect_unreachable(response@)) ==> (r matches
            ConnectOutcome::Unreachable(m) && m@
            == "Unable to connect: check that the device and this computer are on the same network, that the access point does not isolate clients, and that USB debugging is enabled"@),
        (!spec_connect_success(response@) && !spec_connect_unreachable(response@)
            && spec_connect_timeout(response@)) ==> (r matches ConnectOutcome::TimedOut(m) && m@
            == "Connection timed out: the router may be blocking device-to-device connections"@),
        (!spec_connect_success(response@) && !spec_connect_unreachable(response@)
            && !spec_connect_timeout(response@)) ==> (r matches ConnectOutcome::Unknown(m) && m@
            == response@),
{
    if contains_str(response, "connected") || contains_str(response, "already connected") {
        ConnectOutcome::Success
    } else if contains_str(response, "unable to connect") || contains_str(
        response,
        "connection refused",
    ) {
        ConnectOutcome::Unreachable(
            String::from_str(
                "Unable to connect: check that the device and this computer are on the same network, that the access point does not isolate clients, and that USB debugging is enabled",
            ),
        )
    } else if contains_str(response, "timeout") {
        ConnectOutcome::TimedOut(
            String::from_str(
                "Connection timed out: the router may be blocking device-to-device connections",
            ),
        )
    } else {
        ConnectOutcome::Unknown(String::from_str(response))
    }
}

/// Classifies the tool's disconnect response: confirmation text means
/// success, anything else is reported with the raw text.
pub fn classify_disconnect_response(response: &str) -> (r: Result<bool, String>)
    ensures
        spec_contains(response@, "disconnected"@) ==> (r matches Ok(b) && b == true),
        !spec_contains(response@, "disconnected"@) ==> (r matches Err(e) && e@
            == "Failed to disconnect: "@ + response@),
{
    if contains_str(response, "disconnected") {
        Ok(true)
    } else {
        Err(concat_str("Failed to disconnect: ", response))
    }
}

/// The transport-switch error text names an unknown device: the identifier
/// is stale, so retrying cannot help and the caller must refresh its list.
pub open spec fn spec_unknown_device_error(t: Seq<char>) -> bool {
    spec_contains_ci(t, "not found"@)
}

pub fn is_unknown_device_error(error_text: &str) -> (r: bool)
    ensures
        r == spec_unknown_device_error(error_text@),
{
    contains_ci(error_text, "not found")
}

/// The message a failed transport switch surfaces.  The switch is attempted
/// exactly once: an unknown-device failure gets guidance instead of a retry,
/// and any other failure propagates the tool's own words.
pub fn switch_failure_message(error_text: &str) -> (r: String)
    ensures
        spec_unknown_device_error(error_text@) ==> r@
            == "Device not found: refresh the device list and make sure USB debugging is enabled"@,
        !spec_unknown_device_error(error_text@) ==> r@ == error_text@,
{
    if is_unknown_device_error(error_text) {
        String::from_str(
            "Device not found: refresh the device list and make sure USB debugging is enabled",
        )
    } else {
        String::from_str(error_text)
    }
}

/// The progress of one reconnection search: whom we are looking for, the
/// model snapshotted before the switch, and how many probes have run.
pub struct ReconnectState {
    pub target_serial: String,
    pub snapshot_model: String,
    pub probes_used: u8,
}

/// The retry budget: how many probes a search may make.
pub const PROBE_BUDGET: u8 = 5;

/// Starts a search for the device that was just switched.  A failed
/// best-effort model snapshot is tolerated and recorded as an empty string.
pub fn reconnect_begin(target_serial: &str, snapshot_model: Option<String>) -> (st: ReconnectState)
    ensures
        st.target_serial@ == target_serial@,
        st.snapshot_model@ == (match snapshot_model {
            Some(m) => m@,
            None => Seq::<char>::empty(),
        }),
        st.probes_used == 0,
{
    let model = match snapshot_model {
        Some(m) => m,
        None => String::new(),
    };
    ReconnectState { target_serial: String::from_str(target_serial), snapshot_model: model, probes_used: 0 }
}

/// How long to wait before the next probe: the first wait is long, because
/// the first cable-to-network flip makes the device drop and re-enumerate
/// slowly; later waits are short.
pub open spec fn spec_next_delay(probes_used: u8) -> u64 {
    if probes_used == 0 {
        1500
    } else {
        500
    }
}

impl ReconnectState {
    pub fn next_delay(&self) -> (r: u64)
        ensures
            r == spec_next_delay(self.probes_used),
    {
        if self.probes_used == 0 {
            1500
        } else {
            500
        }
    }

    /// Whether the retry budget allows another probe.
    pub fn can_probe(&self) -> (r: bool)
        ensures
            r == (self.probes_used < PROBE_BUDGET),
    {
        self.probes_used < PROBE_BUDGET
    }

    /// Accounts for one fruitless probe.
    pub fn record_probe(&mut self)
        requires
            old(self).probes_used < PROBE_BUDGET,
        ensures
            final (self).probes_used == old(self).probes_used + 1,
            final (self).target_serial == old(self).target_serial,
            final (self).snapshot_model == old(self).snapshot_model,
    {
        self.probes_used = self.probes_used + 1;
    }
}

/// What a search that used up its whole budget reports.
pub fn exhausted_message() -> (r: String)
    ensures
        r@ == "Could not find the device's wireless address: find the device's IP address manually and connect to it directly"@,
{
    String::from_str(
        "Could not find the device's wireless address: find the device's IP address manually and connect to it directly",
    )
}

/// How many enumerated devices are cable-attached.
pub open spec fn spec_usb_count(ds: Seq<Device>) -> nat
    decreases ds.len(),
{
    if ds.len() == 0 {
        0
    } else {
        (if ds.first()@.connection_type == ConnectionType::USB {
            1nat
        } else {
            0nat
        }) + spec_usb_count(ds.drop_first())
    }
}

/// Whether a device re-identifies the switched one: it must still be
/// cable-attached, and carry the old serial, or the snapshotted model, or be
/// the only cable-attached device present — the last-resort assumption.
pub open spec fn spec_candidate(
    d: Device,
    target: Seq<char>,
    model: Seq<char>,
    lone_usb: bool,
) -> bool {
    d@.connection_type == ConnectionType::USB && (d@.id == target || d@.model == model || lone_usb)
}

/// Index of the first re-identification candidate, or -1 when none matches.
pub open spec fn spec_first_candidate(
    ds: Seq<Device>,
    target: Seq<char>,
    model: Seq<char>,
    lone_usb: bool,
) -> int
    decreases ds.len(),
{
    if ds.len() == 0 {
        -1
    } else if spec_candidate(ds.first(), target, model, lone_usb) {
        0
    } else if spec_first_candidate(ds.drop_first(), target, model, lone_usb) == -1 {
        -1
    } else {
        spec_first_candidate(ds.drop_first(), target, model, lone_usb) + 1
    }
}

pub proof fn lemma_first_candidate_characterizes(
    ds: Seq<Device>,
    target: Seq<char>,
    model: Seq<char>,
    lone_usb: bool,
)
    ensures
        spec_first_candidate(ds, target, model, lone_usb) >= -1,
        spec_first_candidate(ds, target, model, lone_usb) == -1 <==> (forall|j: int|
            0 <= j < ds.len() ==> !spec_candidate(#[trigger] ds[j], target, model, lone_usb)),
        spec_first_candidate(ds, target, model, lone_usb) >= 0 ==> {
            let f = spec_first_candidate(ds, target, model, lone_usb);
            &&& f < ds.len()
            &&& spec_candidate(ds[f], target, model, lone_usb)
            &&& forall|j: int| 0 <= j < f ==> !spec_candidate(#[trigger] ds[j], target, model, lone_usb)
        },
    decreases ds.len(),
{
    if ds.len() > 0 && !spec_candidate(ds.first(), target, model, lone_usb) {
        let rest = ds.drop_first();
        lemma_first_candidate_characterizes(rest, target, model, lone_usb);
        let f = spec_first_candidate(rest, target, model, lone_usb);
        if f == -1 {
            assert forall|j: int| 0 <= j < ds.len() implies !spec_candidate(
                #[trigger] ds[j],
                target,
                model,
                lone_usb,
            ) by {
                if j > 0 {
                    assert(ds[j] == rest[j - 1]);
                }
            }
        } else {
            assert(ds[f + 1] == rest[f]);
            assert forall|j: int| 0 <= j < f + 1 implies !spec_candidate(
                #[trigger] ds[j],
                target,
                model,
                lone_usb,
            ) by {
                if j > 0 {
                    assert(ds[j] == rest[j - 1]);
                }
            }
        }
    }
}

fn count_usb(devices: &Vec<Device>) -> (r: usize)
    ensures
        r == spec_usb_count(devices@),
{
    proof {
        lemma_usb_count_bound(devices@);
    }
    let mut n: usize = 0;
    let mut i: usize = 0;
    while i < devices.len()
        invariant
            0 <= i <= devices@.len(),
            n == spec_usb_count(devices@.take(i as int)),
            n <= i,
        decreases devices@.len() - i,
    {
        proof {
            lemma_usb_count_snoc(devices@.take(i + 1));
            assert(devices@.take(i + 1).drop_last() =~= devices@.take(i as int));
            assert(devices@.take(i + 1).last() == devices@[i as int]);
        }
        let is_usb = match devices[i].connection_type {
            ConnectionType::USB => true,
            ConnectionType::Wireless => false,
        };
        if is_usb {
            n += 1;
        }
        i += 1;
    }
    proof {
        assert(devices@.take(devices@.len() as int) =~= devices@);
    }
    n
}

/// Counting from the back: the count over a sequence is the count over its
/// prefix plus the last element's contribution.
proof fn lemma_usb_count_snoc(ds: Seq<Device>)
    requires
        ds.len() > 0,
    ensures
        spec_usb_count(ds) == spec_usb_count(ds.drop_last()) + (if ds.last()@.connection_type
            == ConnectionType::USB {
            1nat
        } else {
            0nat
        }),
    decreases ds.len(),
{
    if ds.len() > 1 {
        let a = ds.drop_first();
        let b = ds.drop_last();
        lemma_usb_count_snoc(a);
        assert(a.drop_last() =~= b.drop_first());
        assert(a.last() == ds.last());
        assert(b.first() == ds.first());
        assert(spec_usb_count(a.drop_last()) == spec_usb_count(b.drop_first()));
        assert(spec_usb_count(ds) == (if ds.first()@.connection_type == ConnectionType::USB {
            1nat
        } else {
            0nat
        }) + spec_usb_count(a));
        assert(spec_usb_count(b) == (if b.first()@.connection_type == ConnectionType::USB {
            1nat
        } else {
            0nat
        }) + spec_usb_count(b.drop_first()));
    } else {
        assert(ds.drop_last() =~= Seq::<Device>::empty());
        assert(spec_usb_count(ds.drop_last()) == 0);
        assert(ds.drop_first() =~= Seq::<Device>::empty());
        assert(spec_usb_count(ds.drop_first()) == 0);
        assert(ds.last() == ds.first());
    }
}

proof fn lemma_usb_count_bound(ds: Seq<Device>)
    ensures
        spec_usb_count(ds) <= ds.len(),
        forall|i: int| 0 <= i <= ds.len() ==> spec_usb_count(#[trigger] ds.take(i)) <= i,
    decreases ds.len(),
{
    assert forall|i: int| 0 <= i <= ds.len() implies spec_usb_count(#[trigger] ds.take(i)) <= i by {
        lemma_usb_count_prefix_bound(ds, i);
    }
    assert(ds.take(ds.len() as int) =~= ds);
}

proof fn lemma_usb_count_prefix_bound(ds: Seq<Device>, i: int)
    requires
        0 <= i <= ds.len(),
    ensures
        spec_usb_count(ds.take(i)) <= i,
    decreases i,
{
    if i > 0 {
        lemma_usb_count_prefix_bound(ds, i - 1);
        lemma_usb_count_snoc(ds.take(i));
        assert(ds.take(i).drop_last() =~= ds.take(i - 1));
    }
}

/// Picks the first re-identification candidate from an enumeration and
/// returns its serial: the device to attempt the route-table lookup against.
pub fn select_candidate(devices: &Vec<Device>, target_serial: &str, snapshot_model: &str) -> (r:
    Option<String>)
    ensures
        ({
            let lone = spec_usb_count(devices@) == 1;
            let f = spec_first_candidate(devices@, target_serial@, snapshot_model@, lone);
            match r {
                Some(serial) => f >= 0 && serial@ == devices@[f]@.id,
                None => f == -1,
            }
        }),
{
    let lone = count_usb(devices) == 1;
    let ghost lone_g = spec_usb_count(devices@) == 1;
    proof {
        lemma_first_candidate_characterizes(devices@, target_serial@, snapshot_model@, lone_g);
    }
    let mut i: usize = 0;
    while i < devices.len()
        invariant
            0 <= i <= devices@.len(),
            lone == lone_g,
            lone_g == (spec_usb_count(devices@) == 1),
            forall|j: int| 0 <= j < i ==> !spec_candidate(
                #[trigger] devices@[j],
                target_serial@,
                snapshot_model@,
                lone_g,
            ),
        decreases devices@.len() - i,
    {
        let d = &devices[i];
        let is_usb = match d.connection_type {
            ConnectionType::USB => true,
            ConnectionType::Wireless => false,
        };
        if is_usb && (eq_str(d.id.as_str(), target_serial) || eq_str(
            d.model.as_str(),
            snapshot_model,
        ) || lone) {
            proof {
                lemma_first_candidate_characterizes(
                    devices@,
                    target_serial@,
                    snapshot_model@,
                    lone_g,
                );
                assert(spec_candidate(devices@[i as int], target_serial@, snapshot_model@, lone_g));
            }
            return Some(d.id.clone());
        }
        i += 1;
    }
    proof {
        lemma_first_candidate_characterizes(devices@, target_serial@, snapshot_model@, lone_g);
    }
    None
}

/// What one simulated probe observed: the devices enumerated after the
/// switch, and what the route-table lookup against the matched candidate
/// yielded (`None` when the lookup failed or no candidate matched).
pub struct ReconnectProbe {
    pub devices: Vec<Device>,
    pub route_ip: Option<String>,
}

/// The address one probe resolves: the route-lookup result, but only when
/// some device re-identified the target.
pub open spec fn spec_probe_result(
    p: ReconnectProbe,
    target: Seq<char>,
    model: Seq<char>,
) -> Option<Seq<char>> {
    let lone = spec_usb_count(p.devices@) == 1;
    if spec_first_candidate(p.devices@, target, model, lone) >= 0 {
        match p.route_ip {
            Some(ip) => Some(ip@),
            None => None,
        }
    } else {
        None
    }
}

/// Index of the first probe that resolves an address, or -1 when the whole
/// budget is fruitless.
pub open spec fn spec_first_success(
    probes: Seq<ReconnectProbe>,
    target: Seq<char>,
    model: Seq<char>,
) -> int
    decreases probes.len(),
{
    if probes.len() == 0 {
        -1
    } else if spec_probe_result(probes.first(), target, model) is Some {
        0
    } else if spec_first_success(probes.drop_first(), target, model) == -1 {
        -1
    } else {
        spec_first_success(probes.drop_first(), target, model) + 1
    }
}

pub proof fn lemma_first_success_characterizes(
    probes: Seq<ReconnectProbe>,
    target: Seq<char>,
    model: Seq<char>,
)
    ensures
        spec_first_success(probes, target, model) >= -1,
        spec_first_success(probes, target, model) == -1 <==> (forall|j: int|
            0 <= j < probes.len() ==> spec_probe_result(#[trigger] probes[j], target, model)
                is None),
        spec_first_success(probes, target, model) >= 0 ==> {
            let f = spec_first_success(probes, target, model);
            &&& f < probes.len()
            &&& spec_probe_result(probes[f], target, model) is Some
            &&& forall|j: int|
                0 <= j < f ==> spec_probe_result(#[trigger] probes[j], target, model) is None
        },
    decreases probes.len(),
{
    if probes.len() > 0 && spec_probe_result(probes.first(), target, model) is None {
        let rest = probes.drop_first();
        lemma_first_success_characterizes(rest, target, model);
        let f = spec_first_success(rest, target, model);
        if f == -1 {
            assert forall|j: int| 0 <= j < probes.len() implies spec_probe_result(
                #[trigger] probes[j],
                target,
                model,
            ) is None by {
                if j > 0 {
                    assert(probes[j] == rest[j - 1]);
                }
            }
        } else {
            assert(probes[f + 1] == rest[f]);
            assert forall|j: int| 0 <= j < f + 1 implies spec_probe_result(
                #[trigger] probes[j],
                target,
                model,
            ) is None by {
                if j > 0 {
                    assert(probes[j] == rest[j - 1]);
                }
            }
        }
    }
}

/// Runs the whole re-identification search against a fixed sequence of
/// observations, one per allowed probe: the exact protocol the application's
/// polling loop follows, on simulated inputs.  The result is the address of
/// the first probe whose enumeration re-identified the device and whose
/// route lookup succeeded; when all probes are fruitless, the budget is
/// exhausted and the advisory error returned.
pub fn run_reconnect(target_serial: &str, snapshot_model: &str, probes: &Vec<ReconnectProbe>) -> (r:
    Result<String, String>)
    requires
        probes@.len() == PROBE_BUDGET,
    ensures
        ({
            let f = spec_first_success(probes@, target_serial@, snapshot_model@);
            match r {
                Ok(ip) => f >= 0 && Some(ip@) == spec_probe_result(
                    probes@[f],
                    target_serial@,
                    snapshot_model@,
                ),
                Err(e) => f == -1 && e@
                    == "Could not find the device's wireless address: find the device's IP address manually and connect to it directly"@,
            }
        }),
{
    let mut st = reconnect_begin(target_serial, Some(String::from_str(snapshot_model)));
    proof {
        lemma_first_success_characterizes(probes@, target_serial@, snapshot_model@);
    }
    while st.can_probe()
        invariant
            st.target_serial@ == target_serial@,
            st.snapshot_model@ == snapshot_model@,
            0 <= st.probes_used <= PROBE_BUDGET,
            probes@.len() == PROBE_BUDGET,
            forall|j: int| 0 <= j < st.probes_used ==> spec_probe_result(
                #[trigger] probes@[j],
                target_serial@,
                snapshot_model@,
            ) is None,
        decreases PROBE_BUDGET - st.probes_used,
    {
        let k = st.probes_used as usize;
        let probe = &probes[k];
        match select_candidate(&probe.devices, st.target_serial.as_str(), st.snapshot_model.as_str(
        )) {
            Some(_serial) => {
                match &probe.route_ip {
                    Some(ip) => {
                        proof {
                            lemma_first_success_characterizes(
                                probes@,
                                target_serial@,
                                snapshot_model@,
                            );
                            assert(spec_probe_result(probes@[k as int], target_serial@, snapshot_model@)
                                is Some);
                        }
                        return Ok(ip.clone());
                    },
                    None => {},
                }
            },
            None => {},
        }
        proof {
            assert(spec_probe_result(probes@[k as int], target_serial@, snapshot_model@) is None);
        }
        st.record_probe();
    }
    proof {
        lemma_first_success_characterizes(probes@, target_serial@, snapshot_model@);
    }
    Err(exhausted_message())
}

/// When no cable-attached device ever reappears, every probe is fruitless:
/// the search consumes its whole budget of probes and reports exhaustion.
pub proof fn lemma_reconnect_exhausts(
    probes: Seq<ReconnectProbe>,
    target: Seq<char>,
    model: Seq<char>,
)
    requires
        forall|i: int| 0 <= i < probes.len() ==> spec_usb_count((#[trigger] probes[i]).devices@)
            == 0,
    ensures
        spec_first_success(probes, target, model) == -1,
{
    lemma_first_success_characterizes(probes, target, model);
    assert forall|j: int| 0 <= j < probes.len() implies spec_probe_result(
        #[trigger] probes[j],
        target,
        model,
    ) is None by {
        let p = probes[j];
        let lone = spec_usb_count(p.devices@) == 1;
        lemma_first_candidate_characterizes(p.devices@, target, model, lone);
        lemma_no_usb_no_candidate(p.devices@, target, model, lone);
    }
}

proof fn lemma_no_usb_no_candidate(
    ds: Seq<Device>,
    target: Seq<char>,
    model: Seq<char>,
    lone_usb: bool,
)
    requires
        spec_usb_count(ds) == 0,
    ensures
        forall|j: int| 0 <= j < ds.len() ==> !spec_candidate(#[trigger] ds[j], target, model, lone_usb),
    decreases ds.len(),
{
    if ds.len() > 0 {
        lemma_no_usb_no_candidate(ds.drop_first(), target, model, lone_usb);
        assert forall|j: int| 0 <= j < ds.len() implies !spec_candidate(
            #[trigger] ds[j],
            target,
            model,
            lone_usb,
        ) by {
            if j == 0 {
                assert(ds[0] == ds.first());
            } else {
                assert(ds[j] == ds.drop_first()[j - 1]);
            }
        }
    }
}

/// When, at some probe, exactly one cable-attached device is present and its
/// model matches the snapshot, and its route lookup yields an address, that
/// probe succeeds: with all earlier probes fruitless, the search returns
/// that address before exhausting its budget.
pub proof fn lemma_reconnect_finds(
    probes: Seq<ReconnectProbe>,
    target: Seq<char>,
    model: Seq<char>,
    k: int,
    i: int,
)
    requires
        0 <= k < probes.len(),
        forall|j: int| 0 <= j < k ==> spec_probe_result(#[trigger] probes[j], target, model)
            is None,
        spec_usb_count(probes[k].devices@) == 1,
        0 <= i < probes[k].devices@.len(),
        probes[k].devices@[i]@.connection_type == ConnectionType::USB,
        probes[k].devices@[i]@.model == model,
        probes[k].route_ip is Some,
    ensures
        spec_first_success(probes, target, model) == k,
        spec_probe_result(probes[k], target, model) == Some(probes[k].route_ip->Some_0@),
{
    let p = probes[k];
    let lone = spec_usb_count(p.devices@) == 1;
    assert(spec_candidate(p.devices@[i], target, model, lone));
    lemma_first_candidate_characterizes(p.devices@, target, model, lone);
    if spec_first_candidate(p.devices@, target, model, lone) == -1 {
        assert(!spec_candidate(p.devices@[i], target, model, lone));
    }
    assert(spec_probe_result(p, target, model) is Some);
    lemma_first_success_characterizes(probes, target, model);
    let f = spec_first_success(probes, target, model);
    if f == -1 {
        assert(spec_probe_result(probes[k], target, model) is None);
    }
    if f < k {
        assert(spec_probe_result(probes[f], target, model) is None);
    }
    if f > k {
        assert(spec_probe_result(probes[k], target, model) is None);
    }
}

} // verus!
