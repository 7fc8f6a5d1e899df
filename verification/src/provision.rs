//! What a run decides: whether a node is taken at all, which of its devices
//! are passed through, and what is said of each.
use vstd::prelude::*;

use crate::keyed::Keyed;
use crate::device::{DeviceState, Provisioning};
use crate::idle::Holder;
use crate::mode::Mode;
use crate::modules::{needs_driver_override, Claim};
use crate::numeral::decimal;
use crate::refusal::Refusal;
use crate::text::{contains, join, same, underscored};

verus! {

/// Whether a device is passed through under `mode`.
pub open spec fn passes(mode: Mode) -> spec_fn(DeviceState) -> bool {
    |state: DeviceState| mode == Mode::Ppcie || !state.is_switch()
}

pub open spec fn passed_through(states: Seq<DeviceState>, mode: Mode) -> Seq<DeviceState> {
    states.filter(passes(mode))
}

/// Only PPCIE gives one guest the whole baseboard; the other modes are
/// single-GPU, where taking the switches off the host would strand them.
pub fn passthrough_set(states: &Vec<DeviceState>, mode: Mode) -> (r: Vec<DeviceState>)
    ensures
        r@ == passed_through(states@, mode),
{
    let mut out: Vec<DeviceState> = Vec::new();
    assert(states@.take(0).filter(passes(mode)) =~= Seq::<DeviceState>::empty()) by {
        reveal(Seq::filter);
    }
    for i in 0..states.len()
        invariant
            out@ == passed_through(states@.take(i as int), mode),
    {
        assert(states@.take(i + 1) =~= states@.take(i as int).push(states@[i as int]));
        proof {
            states@.take(i as int).lemma_filter_push(states@[i as int], passes(mode));
        }
        let switch = match states[i].provisioning() {
            Some(Provisioning::NvidiaInBandPpcie) => true,
            Some(Provisioning::NvidiaInBandCc) | None => false,
        };
        if mode == Mode::Ppcie || !switch {
            out.push(states[i].clone());
        }
    }
    assert(states@.take(states@.len() as int) =~= states@);
    out
}

/// Under PPCIE every device is passed through; under any other mode every
/// device but the switches, each of them in its place.
pub proof fn law_switches_pass_only_under_ppcie(states: Seq<DeviceState>, mode: Mode)
    ensures
        mode == Mode::Ppcie ==> passed_through(states, mode) == states,
        forall|i: int|
            0 <= i < passed_through(states, mode).len() ==> {
                &&& states.contains(#[trigger] passed_through(states, mode)[i])
                &&& mode != Mode::Ppcie ==> !passed_through(states, mode)[i].is_switch()
            },
        forall|state: DeviceState|
            states.contains(state) && !state.is_switch() ==> #[trigger] passed_through(
                states,
                mode,
            ).contains(state),
{
    let passing = passes(mode);
    let set = passed_through(states, mode);
    if mode == Mode::Ppcie {
        crate::filter::lemma_filter_all(states, passing);
    }
    assert forall|i: int| 0 <= i < set.len() implies {
        &&& states.contains(#[trigger] set[i])
        &&& mode != Mode::Ppcie ==> !set[i].is_switch()
    } by {
        states.lemma_filter_pred(passing, i);
        states.lemma_filter_contains_rev(passing, set[i]);
    }
    assert forall|state: DeviceState|
        states.contains(state) && !state.is_switch() implies #[trigger] set.contains(state) by {
        let k = choose|k: int| 0 <= k < states.len() && states[k] == state;
        states.lemma_filter_contains(passing, k);
    }
}

/// A device as it is named to the operator.
pub open spec fn device_text(state: DeviceState) -> Seq<char> {
    state.address@ + " ("@ + state.device_name@ + ")"@
}

fn describe(state: &DeviceState) -> (r: String)
    ensures
        r@ == device_text(*state),
{
    let mut text = state.address.clone();
    text.append(" (");
    text.append(state.device_name.as_str());
    text.append(")");
    text
}

pub open spec fn needs_variant(state: DeviceState, module: Seq<char>) -> Seq<char> {
    device_text(state)
        + " is coherently attached over NVLink-C2C and needs a vfio driver that can map its memory, but this kernel's module alias table offers only "@
        + module
        + ", which cannot. The node needs a kernel whose nvgrace-gpu vfio driver claims this device"@
}

/// The fallback to `vfio-pci` is right for an ordinary PCIe GPU and wrong for
/// a coherently attached one, which would reach a VM with its memory missing.
pub fn verify_variant_available(state: &DeviceState, module: &str) -> (r: Result<(), Refusal>)
    ensures
        match r {
            Ok(_) => !state.c2c || crate::modules::is_variant(module@),
            Err(refusal) => {
                &&& state.c2c && !crate::modules::is_variant(module@)
                &&& refusal.message@ == needs_variant(*state, module@)
            },
        },
{
    if !state.c2c || needs_driver_override(module) {
        return Ok(());
    }
    let mut message = describe(state);
    message.append(
        " is coherently attached over NVLink-C2C and needs a vfio driver that can map its memory, but this kernel's module alias table offers only ",
    );
    message.append(module);
    message.append(
        ", which cannot. The node needs a kernel whose nvgrace-gpu vfio driver claims this device",
    );
    Err(Refusal { message })
}

/// A GPU can do what `mode` asks of it.
pub open spec fn can_do(state: DeviceState, mode: Mode) -> bool {
    if mode == Mode::Ppcie {
        state.has_ppcie()
    } else {
        state.has_cc()
    }
}

/// The GPUs that cannot do what `mode` asks of them.
pub open spec fn incapable(states: Seq<DeviceState>, mode: Mode) -> Seq<Seq<char>>
    decreases states.len(),
{
    if states.len() == 0 {
        Seq::empty()
    } else {
        let earlier = incapable(states.drop_last(), mode);
        let state = states.last();
        if state.is_gpu() && !can_do(state, mode) {
            earlier.push(device_text(state))
        } else {
            earlier
        }
    }
}

/// The GPUs that are attached to a Grace CPU.
pub open spec fn grace_attached(states: Seq<DeviceState>) -> Seq<Seq<char>>
    decreases states.len(),
{
    if states.len() == 0 {
        Seq::empty()
    } else {
        let earlier = grace_attached(states.drop_last());
        let state = states.last();
        if state.is_gpu() && state.c2c {
            earlier.push(device_text(state))
        } else {
            earlier
        }
    }
}

pub open spec fn requirement(mode: Mode) -> Seq<char> {
    if mode == Mode::Ppcie {
        "PPCIE support, which is Hopper-only"@
    } else {
        "in-band CC support"@
    }
}

pub open spec fn lacks_support(states: Seq<DeviceState>, mode: Mode) -> Seq<char> {
    "mode "@ + mode.text() + " needs "@ + requirement(mode) + ", which "@
        + crate::numeral::decimal_text(incapable(states, mode).len() as int)
        + " of this node's "@ + crate::numeral::decimal_text(states.len() as int)
        + " devices lack: "@ + crate::text::joined(incapable(states, mode), ", "@)
        + ". Provision this node with --mode off, or leave it out of the run's node selection"@
}

pub open spec fn lacks_cpu_support(states: Seq<DeviceState>, mode: Mode) -> Seq<char> {
    "mode "@ + mode.text()
        + " needs confidential computing from the CPU as well as the GPU, and the Grace CPU "@
        + crate::numeral::decimal_text(grace_attached(states).len() as int)
        + " of this node's devices are attached to has none: "@ + crate::text::joined(
        grace_attached(states),
        ", "@,
    ) + ". Provision this node with --mode off, or leave it out of the run's node selection"@
}

/// Why the node's devices rule `mode` out, where they do.
pub open spec fn incapacity(states: Seq<DeviceState>, mode: Mode) -> Option<Seq<char>> {
    if mode == Mode::Off {
        None
    } else if incapable(states, mode).len() > 0 {
        Some(lacks_support(states, mode))
    } else if grace_attached(states).len() > 0 {
        Some(lacks_cpu_support(states, mode))
    } else {
        None
    }
}

fn is_gpu(state: &DeviceState) -> (r: bool)
    ensures
        r == state.is_gpu(),
{
    match state.provisioning() {
        Some(Provisioning::NvidiaInBandCc) => true,
        Some(Provisioning::NvidiaInBandPpcie) | None => false,
    }
}

fn list_incapable(states: &Vec<DeviceState>, mode: Mode) -> (r: Vec<String>)
    ensures
        crate::text::texts(r@) == incapable(states@, mode),
{
    let mut out: Vec<String> = Vec::new();
    assert(crate::text::texts(out@) =~= incapable(states@.take(0), mode));
    for i in 0..states.len()
        invariant
            crate::text::texts(out@) == incapable(states@.take(i as int), mode),
    {
        assert(states@.take(i + 1).drop_last() =~= states@.take(i as int));
        let state = &states[i];
        // Blackwell has per-GPU CC but no PPCIE: refused, not downgraded.
        let capable = if mode == Mode::Ppcie {
            state.carries_ppcie()
        } else {
            state.cc_capable()
        };
        if is_gpu(state) && !capable {
            let ghost so_far = out@;
            out.push(describe(state));
            assert(crate::text::texts(out@) =~= crate::text::texts(so_far).push(
                device_text(*state),
            ));
        }
    }
    assert(states@.take(states@.len() as int) =~= states@);
    out
}

fn list_grace_attached(states: &Vec<DeviceState>) -> (r: Vec<String>)
    ensures
        crate::text::texts(r@) == grace_attached(states@),
{
    let mut out: Vec<String> = Vec::new();
    assert(crate::text::texts(out@) =~= grace_attached(states@.take(0)));
    for i in 0..states.len()
        invariant
            crate::text::texts(out@) == grace_attached(states@.take(i as int)),
    {
        assert(states@.take(i + 1).drop_last() =~= states@.take(i as int));
        let state = &states[i];
        if is_gpu(state) && state.c2c {
            let ghost so_far = out@;
            out.push(describe(state));
            assert(crate::text::texts(out@) =~= crate::text::texts(so_far).push(
                device_text(*state),
            ));
        }
    }
    assert(states@.take(states@.len() as int) =~= states@);
    out
}

/// Refused whole, before the first GPU is touched: provisioning only the
/// capable ones would label the node ready with hardware on it that the
/// workload must never reach.
///
/// A coherently attached GPU rules out every mode but off: confidential
/// computing takes the CPU's half there, and Grace has none.
pub fn verify_capable(states: &Vec<DeviceState>, mode: Mode) -> (r: Result<(), Refusal>)
    ensures
        match r {
            Ok(_) => incapacity(states@, mode) is None,
            Err(refusal) => incapacity(states@, mode) == Some(refusal.message@),
        },
{
    if !mode.cc_ready() {
        return Ok(());
    }
    let lacking = list_incapable(states, mode);
    assert(crate::text::texts(lacking@).len() == lacking@.len());
    if lacking.len() > 0 {
        let mut message = "mode ".to_owned();
        message.append(mode.name());
        message.append(" needs ");
        message.append(
            if mode == Mode::Ppcie {
                "PPCIE support, which is Hopper-only"
            } else {
                "in-band CC support"
            },
        );
        message.append(", which ");
        message.append(decimal(lacking.len() as u64).as_str());
        message.append(" of this node's ");
        message.append(decimal(states.len() as u64).as_str());
        message.append(" devices lack: ");
        message.append(join(&lacking, ", ").as_str());
        message.append(
            ". Provision this node with --mode off, or leave it out of the run's node selection",
        );
        return Err(Refusal { message });
    }
    let attached = list_grace_attached(states);
    assert(crate::text::texts(attached@).len() == attached@.len());
    if attached.len() > 0 {
        let mut message = "mode ".to_owned();
        message.append(mode.name());
        message.append(
            " needs confidential computing from the CPU as well as the GPU, and the Grace CPU ",
        );
        message.append(decimal(attached.len() as u64).as_str());
        message.append(" of this node's devices are attached to has none: ");
        message.append(join(&attached, ", ").as_str());
        message.append(
            ". Provision this node with --mode off, or leave it out of the run's node selection",
        );
        return Err(Refusal { message });
    }
    Ok(())
}

proof fn lemma_someone_lacks(states: Seq<DeviceState>, mode: Mode)
    ensures
        incapable(states, mode).len() > 0 <==> exists|i: int|
            0 <= i < states.len() && (#[trigger] states[i]).is_gpu() && !can_do(states[i], mode),
        grace_attached(states).len() > 0 <==> exists|i: int|
            0 <= i < states.len() && (#[trigger] states[i]).is_gpu() && states[i].c2c,
    decreases states.len(),
{
    if states.len() > 0 {
        let front = states.drop_last();
        let n = front.len() as int;
        lemma_someone_lacks(front, mode);
        if incapable(front, mode).len() > 0 {
            let i = choose|i: int|
                0 <= i < front.len() && (#[trigger] front[i]).is_gpu() && !can_do(front[i], mode);
            assert(states[i] == front[i]);
        }
        if grace_attached(front).len() > 0 {
            let i = choose|i: int|
                0 <= i < front.len() && (#[trigger] front[i]).is_gpu() && front[i].c2c;
            assert(states[i] == front[i]);
        }
        assert(states[n] == states.last());
        if exists|i: int|
            0 <= i < states.len() && (#[trigger] states[i]).is_gpu() && !can_do(states[i], mode) {
            let i = choose|i: int|
                0 <= i < states.len() && (#[trigger] states[i]).is_gpu() && !can_do(
                    states[i],
                    mode,
                );
            if i < n {
                assert(front[i] == states[i]);
            }
        }
        if exists|i: int| 0 <= i < states.len() && (#[trigger] states[i]).is_gpu() && states[i].c2c {
            let i = choose|i: int|
                0 <= i < states.len() && (#[trigger] states[i]).is_gpu() && states[i].c2c;
            if i < n {
                assert(front[i] == states[i]);
            }
        }
    }
}

/// A node is taken into a mode other than off exactly when each of its GPUs
/// can do what the mode asks and none is attached to a Grace CPU. Off is for
/// any node, and a switch is never the reason for a refusal.
pub proof fn law_one_gpu_rules_the_node_out(states: Seq<DeviceState>, mode: Mode)
    ensures
        incapacity(states, mode) is None <==> mode == Mode::Off || forall|i: int|
            0 <= i < states.len() && (#[trigger] states[i]).is_gpu() ==> can_do(states[i], mode)
                && !states[i].c2c,
{
    lemma_someone_lacks(states, mode);
    let fine = forall|i: int|
        0 <= i < states.len() && (#[trigger] states[i]).is_gpu() ==> can_do(states[i], mode)
            && !states[i].c2c;
    if mode != Mode::Off && !fine {
        let i = choose|i: int|
            0 <= i < states.len() && (#[trigger] states[i]).is_gpu() && !(can_do(states[i], mode)
                && !states[i].c2c);
        assert(states[i].is_gpu());
    }
}

/// The knobs that a mode sets on a device, each with its target.
pub open spec fn knobs(state: DeviceState, mode: Mode) -> Seq<Seq<char>> {
    let cc = if state.has_cc() {
        seq!["cc "@ + mode.cc().text()]
    } else {
        Seq::empty()
    };
    let ppcie = if state.has_ppcie() {
        seq!["ppcie "@ + mode.ppcie().text()]
    } else {
        Seq::empty()
    };
    cc + ppcie
}

/// The first device at `address`.
pub open spec fn first_at(states: Seq<DeviceState>, address: Seq<char>) -> Option<DeviceState>
    decreases states.len(),
{
    if states.len() == 0 {
        None
    } else if states[0].address@ == address {
        Some(states[0])
    } else {
        first_at(states.skip(1), address)
    }
}

pub open spec fn target_text(states: Seq<DeviceState>, address: Seq<char>, mode: Mode) -> Seq<
    char,
> {
    match first_at(states, address) {
        Some(state) => crate::text::joined(knobs(state, mode), ", "@),
        None => "cc "@ + mode.cc().text(),
    }
}

/// Per knob, not per node or per device kind: under `ppcie` a Hopper GPU takes
/// CC off *and* PPCIE on, and naming one of them reports what it did not do.
pub fn target_of(states: &Vec<DeviceState>, address: &str, mode: Mode) -> (r: String)
    ensures
        r@ == target_text(states@, address@, mode),
{
    assert(states@.skip(0) =~= states@);
    for i in 0..states.len()
        invariant
            first_at(states@, address@) == first_at(states@.skip(i as int), address@),
    {
        assert(states@.skip(i as int).skip(1) =~= states@.skip(i + 1));
        let state = &states[i];
        if same(state.address.as_str(), address) {
            let mut out: Vec<String> = Vec::new();
            if state.cc_capable() {
                let mut knob = "cc ".to_owned();
                knob.append(mode.cc_target().name());
                out.push(knob);
            }
            if state.carries_ppcie() {
                let mut knob = "ppcie ".to_owned();
                knob.append(mode.ppcie_target().name());
                out.push(knob);
            }
            assert(crate::text::texts(out@) =~= knobs(*state, mode));
            return join(&out, ", ");
        }
    }
    let mut text = "cc ".to_owned();
    text.append(mode.cc_target().name());
    text
}

/// Why the device is not idle.
pub open spec fn in_use(address: Seq<char>, holder: crate::idle::HolderText) -> Seq<char> {
    address + ": in use by pid "@ + crate::numeral::decimal_text(holder.pid as int) + " ("@
        + holder.comm + "): refusing to reset a device a VM may be running on"@
}

/// Refuse a device that something holds, naming the first who does.
pub fn verify_idle(state: &DeviceState, holders: &Vec<Holder>) -> (r: Result<(), Refusal>)
    ensures
        match r {
            Ok(_) => holders@.len() == 0,
            Err(refusal) => holders@.len() > 0 && refusal.message@ == in_use(
                state.address@,
                holders@[0]@,
            ),
        },
{
    if holders.len() == 0 {
        return Ok(());
    }
    let holder = &holders[0];
    let mut message = state.address.clone();
    message.append(": in use by pid ");
    message.append(decimal(holder.pid as u64).as_str());
    message.append(" (");
    message.append(holder.comm.as_str());
    message.append("): refusing to reset a device a VM may be running on");
    Err(Refusal { message })
}

/// One of `states` is the device at `address`.
pub open spec fn has_address(states: Seq<DeviceState>, address: Seq<char>) -> bool {
    exists|i: int| 0 <= i < states.len() && (#[trigger] states[i]).address@ == address
}

/// Whether a device stays with the passthrough set.
pub fn is_kept(passthrough: &Vec<DeviceState>, state: &DeviceState) -> (r: bool)
    ensures
        r == has_address(passthrough@, state.address@),
{
    for i in 0..passthrough.len()
        invariant
            forall|j: int| 0 <= j < i ==> (#[trigger] passthrough@[j]).address@ != state.address@,
    {
        if same(passthrough[i].address.as_str(), state.address.as_str()) {
            assert(passthrough@[i as int].address@ == state.address@);
            return true;
        }
    }
    false
}

pub open spec fn is_vfio(driver: Seq<char>) -> bool {
    crate::text::has_part(crate::text::underscored_text(driver), "vfio"@)
}

/// Whether `driver` is a vfio driver. By a part of its name, because a variant
/// driver is named after the one it stands in for: nvgrace_gpu_vfio_pci,
/// mlx5_vfio_pci.
pub fn is_vfio_driver(driver: &str) -> (r: bool)
    ensures
        r == is_vfio(driver@),
{
    contains(underscored(driver).as_str(), "vfio")
}

/// modprobe takes the module, `driver_override` the driver, and they differ.
#[derive(Debug)]
pub struct VfioDriver {
    pub module: String,
    pub driver: String,
}

impl Clone for VfioDriver {
    fn clone(&self) -> (r: Self)
        ensures
            r == *self,
    {
        VfioDriver { module: self.module.clone(), driver: self.driver.clone() }
    }
}

/// A driver is known for every one of `states`.
pub open spec fn all_resolved(
    states: Seq<DeviceState>,
    drivers: Map<Seq<char>, VfioDriver>,
) -> bool {
    forall|i: int| 0 <= i < states.len() ==> drivers.contains_key((#[trigger] states[i]).address@)
}

pub open spec fn claim_of(state: DeviceState, driver: VfioDriver) -> Claim {
    Claim {
        address: state.address,
        vendor: state.vendor,
        device: state.device_id,
        module: driver.module,
        driver: driver.driver,
    }
}

/// What is said once the boot configuration is removed.
pub const UNINSTALLED: &'static str =
    "boot configuration removed; live bindings and CC mode left unchanged";

/// What the node has to claim again at every boot.
pub open spec fn claims_of(
    states: Seq<DeviceState>,
    drivers: Map<Seq<char>, VfioDriver>,
) -> Seq<Claim> {
    states.map_values(|state: DeviceState| claim_of(state, drivers[state.address@]))
}

/// What the node has to claim again at every boot, with the driver that was
/// found for each device.
pub fn claims(states: &Vec<DeviceState>, drivers: &Keyed<VfioDriver>) -> (r: Vec<Claim>)
    requires
        all_resolved(states@, drivers@),
    ensures
        r@ == claims_of(states@, drivers@),
{
    let mut out: Vec<Claim> = Vec::new();
    for i in 0..states.len()
        invariant
            all_resolved(states@, drivers@),
            out@ == claims_of(states@.take(i as int), drivers@),
    {
        let state = &states[i];
        assert(drivers@.contains_key(states@[i as int].address@));
        if let Some(found) = drivers.get(state.address.as_str()) {
            let ghost so_far = out@;
            out.push(
                Claim {
                    address: state.address.clone(),
                    vendor: state.vendor,
                    device: state.device_id,
                    module: found.module.clone(),
                    driver: found.driver.clone(),
                },
            );
            assert(out@ =~= so_far.push(claim_of(*state, drivers@[state.address@])));
            assert(states@.take(i + 1) =~= states@.take(i as int).push(*state));
            assert(claims_of(states@.take(i + 1), drivers@) =~= claims_of(
                states@.take(i as int),
                drivers@,
            ).push(claim_of(*state, drivers@[state.address@])));
        }
    }
    assert(states@.take(states@.len() as int) =~= states@);
    out
}

/// A device is passed through exactly where it is no NVSwitch or the mode is
/// PPCIE, whatever else there is to it, and the devices stay in their order.
pub proof fn law_only_a_switch_is_ever_kept_back(
    a: Seq<DeviceState>,
    b: Seq<DeviceState>,
    state: DeviceState,
    mode: Mode,
)
    ensures
        passed_through(a, mode).contains(state) <==> a.contains(state) && (mode == Mode::Ppcie || !(
        state.row matches Some(row) && row.provisioning == Provisioning::NvidiaInBandPpcie)),
        passed_through(a + b, mode) == passed_through(a, mode) + passed_through(b, mode),
        passed_through(seq![state], mode).len() == (if mode == Mode::Ppcie || !(
        state.row matches Some(row) && row.provisioning == Provisioning::NvidiaInBandPpcie) {
            1int
        } else {
            0int
        }),
{
    crate::filter::lemma_filter_contains_iff(a, passes(mode));
    Seq::filter_distributes_over_add(a, b, passes(mode));
    crate::filter::lemma_filter_one(state, passes(mode));
}

/// Off is for every node. Any other mode is refused exactly where a GPU of the
/// node is attached to a Grace CPU, or lacks what the mode takes: a CC chip for
/// on and for devtools, a Hopper chip for PPCIE.
pub proof fn law_a_mode_is_refused_exactly_where_a_gpu_cannot_do_it(
    states: Seq<DeviceState>,
    mode: Mode,
)
    ensures
        mode == Mode::Off ==> incapacity(states, mode) is None,
        mode == Mode::On || mode == Mode::DevTools ==> (incapacity(states, mode) is None <==> forall|
            i: int,
        |
            0 <= i < states.len() && (#[trigger] states[i]).row is Some
                && states[i].row->0.provisioning == Provisioning::NvidiaInBandCc
                ==> states[i].cc_chip is Some && !states[i].c2c),
        mode == Mode::Ppcie ==> (incapacity(states, mode) is None <==> forall|i: int|
            0 <= i < states.len() && (#[trigger] states[i]).row is Some
                && states[i].row->0.provisioning == Provisioning::NvidiaInBandCc ==> (
            states[i].chip matches Some(chip) && chip.hopper) && !states[i].c2c),
{
    law_one_gpu_rules_the_node_out(states, mode);
    if mode != Mode::Off {
        if incapacity(states, mode) is None {
            assert forall|i: int|
                0 <= i < states.len() && (#[trigger] states[i]).row is Some
                    && states[i].row->0.provisioning
                    == Provisioning::NvidiaInBandCc implies can_do(states[i], mode)
                && !states[i].c2c by {
                assert(states[i].is_gpu());
            }
        } else {
            let i = choose|i: int|
                0 <= i < states.len() && (#[trigger] states[i]).is_gpu() && !(can_do(
                    states[i],
                    mode,
                ) && !states[i].c2c);
            assert(states[i].row is Some);
        }
    }
}

/// On and devtools ask the same of a GPU.
pub proof fn law_on_and_devtools_ask_for_the_same(states: Seq<DeviceState>)
    ensures
        incapacity(states, Mode::On) is None <==> incapacity(states, Mode::DevTools) is None,
        incapable(states, Mode::On) == incapable(states, Mode::DevTools),
    decreases states.len(),
{
    law_a_mode_is_refused_exactly_where_a_gpu_cannot_do_it(states, Mode::On);
    law_a_mode_is_refused_exactly_where_a_gpu_cannot_do_it(states, Mode::DevTools);
    if states.len() > 0 {
        law_on_and_devtools_ask_for_the_same(states.drop_last());
    }
}

/// The refusal names every GPU that falls short, by address and name and in
/// order, and no other; the same goes for those attached to a Grace CPU. The
/// node's devices are gone through one by one.
pub proof fn law_a_refusal_names_each_gpu_that_falls_short(
    a: Seq<DeviceState>,
    b: Seq<DeviceState>,
    state: DeviceState,
    mode: Mode,
)
    requires
        mode != Mode::Off,
    ensures
        incapable(a + b, mode) == incapable(a, mode) + incapable(b, mode),
        grace_attached(a + b) == grace_attached(a) + grace_attached(b),
        incapable(seq![state], mode) == (if state.row matches Some(row) && row.provisioning
            == Provisioning::NvidiaInBandCc && (if mode == Mode::Ppcie {
            !(state.chip matches Some(chip) && chip.hopper)
        } else {
            state.cc_chip is None
        }) {
            seq![state.address@ + " ("@ + state.device_name@ + ")"@]
        } else {
            Seq::empty()
        }),
        grace_attached(seq![state]) == (if state.row matches Some(row) && row.provisioning
            == Provisioning::NvidiaInBandCc && state.c2c {
            seq![state.address@ + " ("@ + state.device_name@ + ")"@]
        } else {
            Seq::empty()
        }),
    decreases b.len(),
{
    assert(seq![state].drop_last() =~= Seq::<DeviceState>::empty());
    reveal_with_fuel(incapable, 2);
    reveal_with_fuel(grace_attached, 2);
    assert(incapable(seq![state], mode) =~= (if state.row matches Some(row) && row.provisioning
            == Provisioning::NvidiaInBandCc && (if mode == Mode::Ppcie {
            !(state.chip matches Some(chip) && chip.hopper)
        } else {
            state.cc_chip is None
        }) {
        seq![device_text(state)]
    } else {
        Seq::empty()
    }));
    assert(grace_attached(seq![state]) =~= (if state.row matches Some(row) && row.provisioning
            == Provisioning::NvidiaInBandCc && state.c2c {
        seq![device_text(state)]
    } else {
        Seq::empty()
    }));
    if b.len() == 0 {
        assert(a + b =~= a);
    } else {
        assert((a + b).drop_last() =~= a + b.drop_last());
        assert((a + b).last() == b.last());
        law_a_refusal_names_each_gpu_that_falls_short(a, b.drop_last(), state, mode);
        assert(incapable(a + b, mode) =~= incapable(a, mode) + incapable(b, mode));
        assert(grace_attached(a + b) =~= grace_attached(a) + grace_attached(b));
    }
}

/// What a refusal says: the mode, what it takes, how many of how many devices
/// lack it, and which. GPUs that fall short are told before those that are
/// attached to a Grace CPU.
pub proof fn law_a_refusal_says_why(states: Seq<DeviceState>, mode: Mode)
    requires
        incapacity(states, mode) is Some,
    ensures
        incapable(states, mode).len() > 0 ==> incapacity(states, mode)->0 == "mode "@ + mode.text()
            + " needs "@ + (if mode == Mode::Ppcie {
            "PPCIE support, which is Hopper-only"@
        } else {
            "in-band CC support"@
        }) + ", which "@ + crate::numeral::decimal_text(incapable(states, mode).len() as int)
            + " of this node's "@ + crate::numeral::decimal_text(states.len() as int)
            + " devices lack: "@ + crate::text::joined(incapable(states, mode), ", "@)
            + ". Provision this node with --mode off, or leave it out of the run's node selection"@,
        incapable(states, mode).len() == 0 ==> incapacity(states, mode)->0 == "mode "@
            + mode.text()
            + " needs confidential computing from the CPU as well as the GPU, and the Grace CPU "@
            + crate::numeral::decimal_text(grace_attached(states).len() as int)
            + " of this node's devices are attached to has none: "@ + crate::text::joined(
            grace_attached(states),
            ", "@,
        ) + ". Provision this node with --mode off, or leave it out of the run's node selection"@,
{
}

/// A driver is a vfio driver exactly where `vfio` stands somewhere in its name.
pub proof fn law_a_vfio_driver_has_vfio_in_its_name(driver: Seq<char>)
    ensures
        is_vfio(driver) <==> exists|i: int|
            {
                &&& 0 <= i
                &&& i + 4 <= driver.len()
                &&& #[trigger] driver[i] == 'v'
                &&& driver[i + 1] == 'f'
                &&& driver[i + 2] == 'i'
                &&& driver[i + 3] == 'o'
            },
{
    reveal_strlit("vfio");
    let name = crate::text::underscored_text(driver);
    let part = "vfio"@;
    assert(part.len() == 4 && part[0] == 'v' && part[1] == 'f' && part[2] == 'i' && part[3] == 'o');
    if is_vfio(driver) {
        let i = choose|i: int|
            0 <= i && i + part.len() <= name.len() && #[trigger] name.subrange(i, i + part.len())
                == part;
        let found = name.subrange(i, i + part.len());
        assert(found[0] == name[i] && found[1] == name[i + 1] && found[2] == name[i + 2]
            && found[3] == name[i + 3]);
        assert(driver[i] == 'v');
    }
    if exists|i: int|
        {
            &&& 0 <= i
            &&& i + 4 <= driver.len()
            &&& #[trigger] driver[i] == 'v'
            &&& driver[i + 1] == 'f'
            &&& driver[i + 2] == 'i'
            &&& driver[i + 3] == 'o'
        } {
        let i = choose|i: int|
            {
                &&& 0 <= i
                &&& i + 4 <= driver.len()
                &&& #[trigger] driver[i] == 'v'
                &&& driver[i + 1] == 'f'
                &&& driver[i + 2] == 'i'
                &&& driver[i + 3] == 'o'
            };
        assert(name.subrange(i, i + part.len()) =~= part);
    }
}

/// A coherently attached device takes any module but the plain one, in either
/// of its spellings; every other device takes any module. What is said of a
/// device that is refused names it and the module.
pub proof fn law_only_the_plain_module_is_no_variant(
    state: DeviceState,
    module: Seq<char>,
)
    ensures
        crate::modules::is_variant(module) <==> module != "vfio_pci"@ && module != "vfio-pci"@,
        needs_variant(state, module) == state.address@ + " ("@ + state.device_name@ + ")"@
            + " is coherently attached over NVLink-C2C and needs a vfio driver that can map its memory, but this kernel's module alias table offers only "@
            + module
            + ", which cannot. The node needs a kernel whose nvgrace-gpu vfio driver claims this device"@,
{
    crate::modules::law_plain_has_two_spellings(module);
}

/// A claim is that of its device, with the module and the driver that were found
/// for its address.
pub proof fn law_a_claim_is_its_devices(
    states: Seq<DeviceState>,
    drivers: Map<Seq<char>, VfioDriver>,
    i: int,
)
    requires
        0 <= i < states.len(),
    ensures
        claims_of(states, drivers).len() == states.len(),
        claims_of(states, drivers)[i].address == states[i].address,
        claims_of(states, drivers)[i].vendor == states[i].vendor,
        claims_of(states, drivers)[i].device == states[i].device_id,
        claims_of(states, drivers)[i].module == drivers[states[i].address@].module,
        claims_of(states, drivers)[i].driver == drivers[states[i].address@].driver,
{
}

/// What is told of a device's target is what the mode wants of each knob that
/// the device has: CC on a GPU with a CC chip, PPCIE on a switch and on a Hopper.
pub proof fn law_a_target_tells_each_knob(states: Seq<DeviceState>, i: int, mode: Mode)
    requires
        0 <= i < states.len(),
        forall|j: int|
            0 <= j < i ==> (#[trigger] states[j]).address@ != states[i].address@,
    ensures
        ({
            let state = states[i];
            let told = target_text(states, state.address@, mode);
            let cc = "cc "@ + (match mode {
                Mode::Off | Mode::Ppcie => "off"@,
                Mode::On => "on"@,
                Mode::DevTools => "devtools"@,
            });
            let ppcie = "ppcie "@ + (match mode {
                Mode::Ppcie => "on"@,
                _ => "off"@,
            });
            let hopper = state.chip matches Some(chip) && chip.hopper;
            match state.row {
                Some(row) => match row.provisioning {
                    Provisioning::NvidiaInBandCc => {
                        &&& state.cc_chip is Some && hopper ==> told == cc + ", "@ + ppcie
                        &&& state.cc_chip is Some && !hopper ==> told == cc
                        &&& state.cc_chip is None && hopper ==> told == ppcie
                        &&& state.cc_chip is None && !hopper ==> told == Seq::<char>::empty()
                    },
                    Provisioning::NvidiaInBandPpcie => told == ppcie,
                },
                None => told == Seq::<char>::empty(),
            }
        }),
    decreases i,
{
    if i == 0 {
        let state = states[0];
        let told = knobs(state, mode);
        assert(first_at(states, state.address@) == Some(state));
        reveal_with_fuel(crate::text::joined, 3);
        if told.len() == 2 {
            assert(told.drop_last() =~= seq![told[0]]);
        }
    } else {
        let rest = states.skip(1);
        assert(states[0].address@ != states[i].address@);
        assert forall|j: int| 0 <= j < i - 1 implies (#[trigger] rest[j]).address@ != rest[i
            - 1].address@ by {
            assert(states[j + 1].address@ != states[i].address@);
        }
        law_a_target_tells_each_knob(rest, i - 1, mode);
    }
}

/// Who is in the way is told by device, process id and name.
pub proof fn law_a_holder_is_told_by_its_id(address: Seq<char>, holder: crate::idle::HolderText)
    ensures
        in_use(address, holder) == address + ": in use by pid "@ + crate::numeral::decimal_text(
            holder.pid as int,
        ) + " ("@ + holder.comm + "): refusing to reset a device a VM may be running on"@,
{
}

/// A device is kept exactly where one with its address is among those that are
/// passed through, and a driver is known for all of them where each address has
/// one.
pub proof fn law_devices_are_known_by_their_address(
    states: Seq<DeviceState>,
    address: Seq<char>,
    drivers: Map<Seq<char>, VfioDriver>,
)
    ensures
        has_address(states, address) <==> exists|i: int|
            0 <= i < states.len() && (#[trigger] states[i]).address@ == address,
        all_resolved(states, drivers) <==> forall|i: int|
            0 <= i < states.len() ==> drivers.contains_key((#[trigger] states[i]).address@),
        UNINSTALLED@ == "boot configuration removed; live bindings and CC mode left unchanged"@,
{
}

/// A device that nobody knows of is told by the CC knob alone.
pub proof fn law_an_unknown_device_has_the_cc_target(
    states: Seq<DeviceState>,
    address: Seq<char>,
    mode: Mode,
)
    requires
        forall|i: int| 0 <= i < states.len() ==> (#[trigger] states[i]).address@ != address,
    ensures
        target_text(states, address, mode) == "cc "@ + (match mode {
            Mode::Off | Mode::Ppcie => "off"@,
            Mode::On => "on"@,
            Mode::DevTools => "devtools"@,
        }),
    decreases states.len(),
{
    if states.len() > 0 {
        assert(states[0].address@ != address);
        assert forall|i: int| 0 <= i < states.skip(1).len() implies (
        #[trigger] states.skip(1)[i]).address@ != address by {
            assert(states[i + 1].address@ != address);
        }
        law_an_unknown_device_has_the_cc_target(states.skip(1), address, mode);
    }
}

} // verus!
