//! What `status` reports of a node's devices.
use vstd::prelude::*;

use crate::keyed::Keyed;
use crate::device::{DeviceState, Provisioning};
use crate::host::{check_probeable, HostFacts};
use crate::numeral::{hex, signed_decimal};
use crate::refusal::Refusal;

verus! {

/// Whether a device is reported: those out of scope only where all are asked
/// for.
pub open spec fn is_listed(all: bool) -> spec_fn(DeviceState) -> bool {
    |state: DeviceState| all || state.row is Some
}

/// The devices that are reported, in their order.
pub fn listed(states: &Vec<DeviceState>, all: bool) -> (r: Vec<DeviceState>)
    ensures
        r@ == states@.filter(is_listed(all)),
{
    let mut out: Vec<DeviceState> = Vec::new();
    assert(states@.take(0).filter(is_listed(all)) =~= Seq::<DeviceState>::empty()) by {
        reveal(Seq::filter);
    }
    for i in 0..states.len()
        invariant
            out@ == states@.take(i as int).filter(is_listed(all)),
    {
        assert(states@.take(i + 1) =~= states@.take(i as int).push(states@[i as int]));
        proof {
            states@.take(i as int).lemma_filter_push(states@[i as int], is_listed(all));
        }
        if all || states[i].in_scope() {
            out.push(states[i].clone());
        }
    }
    assert(states@.take(states@.len() as int) =~= states@);
    out
}

/// Whether the modes of the listed devices are to be read: where that was
/// asked for and something is listed. A host GPU driver rules it out then, and
/// is in nobody's way where nothing is read.
pub fn probe_due(listed: &Vec<DeviceState>, probe: bool, facts: &HostFacts) -> (r: Result<
    bool,
    Refusal,
>)
    ensures
        match r {
            Ok(due) => {
                &&& due == (probe && listed@.len() > 0)
                &&& due ==> crate::host::driver_conflict(*facts) is None
            },
            Err(refusal) => {
                &&& probe && listed@.len() > 0
                &&& crate::host::driver_conflict(*facts) == Some(refusal.message@)
            },
        },
{
    if !probe || listed.len() == 0 {
        return Ok(false);
    }
    match check_probeable(facts) {
        Ok(_) => Ok(true),
        Err(refusal) => Err(refusal),
    }
}

pub open spec fn provisioning_text(kind: Option<Provisioning>) -> Seq<char> {
    match kind {
        Some(Provisioning::NvidiaInBandCc) => "nvidia-in-band-cc"@,
        Some(Provisioning::NvidiaInBandPpcie) => "nvidia-in-band-ppcie"@,
        None => "out-of-scope"@,
    }
}

/// What is reported of a knob whose mode is not known: whether there is one,
/// and whether reading it was tried.
pub open spec fn unknown_mode(capable: bool, probe: bool) -> Seq<char> {
    if !capable {
        "n/a"@
    } else if probe {
        "unreadable"@
    } else {
        "capable"@
    }
}

fn unknown(capable: bool, probe: bool) -> (r: &'static str)
    ensures
        r@ == unknown_mode(capable, probe),
{
    if !capable {
        "n/a"
    } else if probe {
        "unreadable"
    } else {
        "capable"
    }
}

pub open spec fn cc_field(state: DeviceState, probe: bool) -> Seq<char> {
    match state.cc_mode {
        Some(mode) => mode.text(),
        None => unknown_mode(state.cc_chip is Some, probe),
    }
}

pub open spec fn ppcie_field(state: DeviceState, probe: bool) -> Seq<char> {
    match state.ppcie_mode {
        Some(mode) => mode.text(),
        None => unknown_mode(state.has_ppcie(), probe),
    }
}

/// The line for a device.
pub open spec fn device_line(state: DeviceState, probe: bool) -> Seq<char> {
    state.address@ + "  0x"@ + crate::numeral::hex_text(state.vendor as nat, 4) + ":"@
        + crate::numeral::hex_text(state.device_id as nat, 4) + "  class=0x"@
        + crate::numeral::hex_text(state.class as nat, 6) + "  "@ + provisioning_text(state.kind())
        + "  chip="@ + (match state.cc_chip {
        Some(chip) => chip@,
        None => "-"@,
    }) + "  driver="@ + (match state.driver {
        Some(driver) => driver@,
        None => "<unbound>"@,
    }) + "  iommu_group="@ + crate::numeral::decimal_text(state.iommu_group as int) + "  numa="@
        + crate::numeral::decimal_text(state.numa_node as int) + "  cc="@ + cc_field(state, probe)
        + "  ppcie="@ + ppcie_field(state, probe) + "  "@ + state.device_name@
}

/// The line that reports a device. `probe` says whether reading the modes was
/// tried.
pub fn summary(state: &DeviceState, probe: bool) -> (r: String)
    ensures
        r@ == device_line(*state, probe),
{
    let mut text = state.address.clone();
    text.append("  0x");
    text.append(hex(state.vendor as u64, 4).as_str());
    text.append(":");
    text.append(hex(state.device_id as u64, 4).as_str());
    text.append("  class=0x");
    text.append(hex(state.class as u64, 6).as_str());
    text.append("  ");
    text.append(
        match state.provisioning() {
            Some(Provisioning::NvidiaInBandCc) => "nvidia-in-band-cc",
            Some(Provisioning::NvidiaInBandPpcie) => "nvidia-in-band-ppcie",
            None => "out-of-scope",
        },
    );
    text.append("  chip=");
    text.append(
        match state.cc_chip {
            Some(chip) => chip,
            None => "-",
        },
    );
    text.append("  driver=");
    text.append(
        match &state.driver {
            Some(driver) => driver.as_str(),
            None => "<unbound>",
        },
    );
    text.append("  iommu_group=");
    text.append(signed_decimal(state.iommu_group).as_str());
    text.append("  numa=");
    text.append(signed_decimal(state.numa_node).as_str());
    text.append("  cc=");
    text.append(
        match state.cc_mode {
            Some(mode) => mode.name(),
            None => unknown(state.cc_chip.is_some(), probe),
        },
    );
    text.append("  ppcie=");
    text.append(
        match state.ppcie_mode {
            Some(mode) => mode.name(),
            None => unknown(state.carries_ppcie(), probe),
        },
    );
    text.append("  ");
    text.append(state.device_name.as_str());
    text
}

pub open spec fn label_line(label: (Seq<char>, Seq<char>)) -> Seq<char> {
    "    would label "@ + label.0 + "="@ + label.1
}

/// The lines for a device: the device itself, and the labels it calls for.
pub open spec fn device_lines(state: DeviceState, probe: bool) -> Seq<Seq<char>> {
    seq![device_line(state, probe)] + state.labels().map_values(
        |label: (Seq<char>, Seq<char>)| label_line(label),
    )
}

pub open spec fn all_lines(states: Seq<DeviceState>, probe: bool) -> Seq<Seq<char>>
    decreases states.len(),
{
    if states.len() == 0 {
        Seq::empty()
    } else {
        all_lines(states.drop_last(), probe) + device_lines(states.last(), probe)
    }
}

/// The report on a node's devices.
pub open spec fn report_lines(states: Seq<DeviceState>, probe: bool) -> Seq<Seq<char>> {
    if states.len() == 0 {
        seq!["no devices to provision (try --all to see what the node has)"@]
    } else {
        all_lines(states, probe)
    }
}

fn push_lines(out: &mut Vec<String>, state: &DeviceState, probe: bool)
    ensures
        crate::text::texts(final(out)@) == crate::text::texts(old(out)@) + device_lines(
            *state,
            probe,
        ),
{
    let ghost before = crate::text::texts(out@);
    let first = summary(state, probe);
    let ghost start = before.push(first@);
    out.push(first);
    assert(crate::text::texts(out@) =~= start);
    let labels = state.cc_label_values();
    let ghost lines = state.labels().map_values(
        |label: (Seq<char>, Seq<char>)| label_line(label),
    );
    assert(start + lines.take(0) =~= start);
    for i in 0..labels.len()
        invariant
            crate::device::label_texts(labels@) == state.labels(),
            lines == state.labels().map_values(
                |label: (Seq<char>, Seq<char>)| label_line(label),
            ),
            crate::text::texts(out@) == start + lines.take(i as int),
    {
        let (label, value) = &labels[i];
        let mut text = "    would label ".to_owned();
        text.append(label);
        text.append("=");
        text.append(value.as_str());
        assert(crate::device::label_texts(labels@)[i as int] == (label@, value@));
        assert(text@ =~= lines[i as int]);
        let ghost so_far = out@;
        out.push(text);
        assert(crate::text::texts(out@) =~= crate::text::texts(so_far).push(text@));
        assert(start + lines.take(i + 1) =~= (start + lines.take(i as int)).push(lines[i as int]));
    }
    assert(labels@.len() == crate::device::label_texts(labels@).len());
    assert(lines.take(labels@.len() as int) =~= lines);
    assert(crate::text::texts(out@) =~= before + device_lines(*state, probe));
}

/// The report on a node's devices, line by line.
pub fn report(states: &Vec<DeviceState>, probe: bool) -> (r: Vec<String>)
    ensures
        crate::text::texts(r@) == report_lines(states@, probe),
{
    let mut out: Vec<String> = Vec::new();
    if states.len() == 0 {
        out.push("no devices to provision (try --all to see what the node has)".to_owned());
        assert(crate::text::texts(out@) =~= report_lines(states@, probe));
        return out;
    }
    assert(crate::text::texts(out@) =~= all_lines(states@.take(0), probe));
    for i in 0..states.len()
        invariant
            crate::text::texts(out@) == all_lines(states@.take(i as int), probe),
    {
        assert(states@.take(i + 1).drop_last() =~= states@.take(i as int));
        push_lines(&mut out, &states[i], probe);
    }
    assert(states@.take(states@.len() as int) =~= states@);
    out
}

pub open spec fn failure_line(address: Seq<char>, error: Seq<char>) -> Seq<char> {
    address + ": CC mode unreadable: "@ + error
}

/// One line per device whose modes could not be read.
pub fn failure_report(failures: &Keyed<String>) -> (r: Vec<String>)
    ensures
        crate::text::texts(r@) == failures.keys().map_values(
            |address: Seq<char>| failure_line(address, failures@[address]@),
        ),
        failures.keys().no_duplicates(),
        forall|address: Seq<char>| #[trigger]
            failures@.contains_key(address) <==> failures.keys().contains(address),
{
    let ghost all = failures.keys().map_values(
        |address: Seq<char>| failure_line(address, failures@[address]@),
    );
    let mut out: Vec<String> = Vec::new();
    let count: usize = failures.len();
    for i in 0..count
        invariant
            count == failures.keys().len(),
            all == failures.keys().map_values(
                |address: Seq<char>| failure_line(address, failures@[address]@),
            ),
            crate::text::texts(out@) == all.take(i as int),
    {
        let (address, error) = failures.entry(i);
        let mut text = address.to_owned();
        text.append(": CC mode unreadable: ");
        text.append(error.as_str());
        assert(text@ =~= all[i as int]);
        let ghost so_far = out@;
        out.push(text);
        assert(crate::text::texts(out@) =~= crate::text::texts(so_far).push(text@));
        assert(all.take(i + 1) =~= all.take(i as int).push(all[i as int]));
    }
    assert(all.take(count as int) =~= all);
    out
}

/// Everything is listed where all is asked for, and else exactly what has a row,
/// in its order.
pub proof fn law_what_is_listed(
    a: Seq<DeviceState>,
    b: Seq<DeviceState>,
    state: DeviceState,
    all: bool,
)
    ensures
        all ==> a.filter(is_listed(all)) == a,
        a.filter(is_listed(all)).contains(state) <==> a.contains(state) && (all
            || state.row is Some),
        (a + b).filter(is_listed(all)) == a.filter(is_listed(all)) + b.filter(is_listed(all)),
        seq![state].filter(is_listed(all)) == (if all || state.row is Some {
            seq![state]
        } else {
            Seq::empty()
        }),
{
    if all {
        crate::filter::lemma_filter_all(a, is_listed(all));
    }
    crate::filter::lemma_filter_contains_iff(a, is_listed(all));
    Seq::filter_distributes_over_add(a, b, is_listed(all));
    crate::filter::lemma_filter_one(state, is_listed(all));
}

/// What is reported of the knobs: the mode where it is known, and else whether
/// there is such a knob, and whether reading it was tried. CC is there where the
/// chip has it, PPCIE on an NVSwitch and on a Hopper GPU.
pub proof fn law_what_is_reported_of_the_knobs(state: DeviceState, probe: bool)
    ensures
        state.cc_mode matches Some(cc) ==> cc_field(state, probe) == cc.text(),
        state.cc_mode is None ==> cc_field(state, probe) == (if state.cc_chip is None {
            "n/a"@
        } else if probe {
            "unreadable"@
        } else {
            "capable"@
        }),
        state.ppcie_mode matches Some(ppcie) ==> ppcie_field(state, probe) == ppcie.text(),
        state.ppcie_mode is None ==> ppcie_field(state, probe) == (if !(
        state.row matches Some(row) && (row.provisioning == Provisioning::NvidiaInBandPpcie || (
        state.chip matches Some(chip) && chip.hopper))) {
            "n/a"@
        } else if probe {
            "unreadable"@
        } else {
            "capable"@
        }),
{
}

/// The line of a device: its address, ids, class, what is set on it, chip,
/// driver, IOMMU group, NUMA node, both knobs, and its name.
pub proof fn law_the_line_of_a_device(state: DeviceState, probe: bool)
    ensures
        device_line(state, probe) == state.address@ + "  0x"@ + crate::numeral::hex_text(
            state.vendor as nat,
            4,
        ) + ":"@ + crate::numeral::hex_text(state.device_id as nat, 4) + "  class=0x"@
            + crate::numeral::hex_text(state.class as nat, 6) + "  "@ + (match state.row {
            None => "out-of-scope"@,
            Some(row) => match row.provisioning {
                Provisioning::NvidiaInBandCc => "nvidia-in-band-cc"@,
                Provisioning::NvidiaInBandPpcie => "nvidia-in-band-ppcie"@,
            },
        }) + "  chip="@ + (if state.cc_chip is Some {
            state.cc_chip->0@
        } else {
            "-"@
        }) + "  driver="@ + (if state.driver is Some {
            state.driver->0@
        } else {
            "<unbound>"@
        }) + "  iommu_group="@ + crate::numeral::decimal_text(state.iommu_group as int)
            + "  numa="@ + crate::numeral::decimal_text(state.numa_node as int) + "  cc="@
            + cc_field(state, probe) + "  ppcie="@ + ppcie_field(state, probe) + "  "@
            + state.device_name@,
{
}

/// The report goes through the devices in order: each gets its line, and below it
/// a line for each label. A node without devices is told so.
pub proof fn law_the_report_goes_device_by_device(
    a: Seq<DeviceState>,
    b: Seq<DeviceState>,
    state: DeviceState,
    probe: bool,
    address: Seq<char>,
    error: Seq<char>,
)
    ensures
        report_lines(Seq::empty(), probe) == seq![
            "no devices to provision (try --all to see what the node has)"@,
        ],
        a.len() > 0 && b.len() > 0 ==> report_lines(a + b, probe) == report_lines(a, probe)
            + report_lines(b, probe),
        report_lines(seq![state], probe).len() == 1 + state.labels().len(),
        report_lines(seq![state], probe)[0] == device_line(state, probe),
        forall|i: int|
            0 <= i < state.labels().len() ==> #[trigger] report_lines(seq![state], probe)[i + 1]
                == "    would label "@ + state.labels()[i].0 + "="@ + state.labels()[i].1,
        failure_line(address, error) == address + ": CC mode unreadable: "@ + error,
{
    let one = seq![state];
    reveal_with_fuel(all_lines, 2);
    assert(one.drop_last() =~= Seq::<DeviceState>::empty());
    assert(all_lines(one, probe) =~= device_lines(state, probe));
    lemma_all_lines(a, b, probe);
}

proof fn lemma_all_lines(a: Seq<DeviceState>, b: Seq<DeviceState>, probe: bool)
    ensures
        all_lines(a + b, probe) == all_lines(a, probe) + all_lines(b, probe),
    decreases b.len(),
{
    if b.len() == 0 {
        assert(a + b =~= a);
        assert(all_lines(a + b, probe) =~= all_lines(a, probe) + all_lines(b, probe));
    } else {
        assert((a + b).drop_last() =~= a + b.drop_last());
        lemma_all_lines(a, b.drop_last(), probe);
        assert(all_lines(a + b, probe) =~= all_lines(a, probe) + all_lines(b, probe));
    }
}

} // verus!
