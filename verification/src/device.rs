//! The devices of a node: which are in scope, and what each can do.
use vstd::prelude::*;

use crate::mode::{CcMode, PpcieMode};
use crate::nvidia::{cc_chip, supports_ppcie, Chip};

verus! {

/// A TDISP device (SEV-TIO, TDX Connect) needs no variant here: it locks to a
/// VM at bind time, so there is no node-level mode to set.
#[derive(Clone, Copy, Debug, PartialEq, Eq, Structural)]
pub enum Provisioning {
    /// NVIDIA Hopper and Blackwell.
    NvidiaInBandCc,
    /// NVSwitch: no CC mode of its own, but carries the baseboard's PPCIE mode.
    NvidiaInBandPpcie,
}

/// `nvidia.com/cc.*` is NVIDIA's contract; kata-deploy's selectors key off it.
#[derive(Clone, Copy, Debug)]
pub struct CcLabels {
    pub mode_state: &'static str,
    pub ready_state: &'static str,
}

/// `class_prefix` is the base+subclass, the top 16 bits of the class code.
#[derive(Clone, Copy, Debug)]
pub struct DeviceRow {
    pub vendor: u16,
    pub class_prefix: u16,
    pub provisioning: Provisioning,
    pub cc_labels: Option<CcLabels>,
}

pub open spec fn gpu_row() -> DeviceRow {
    DeviceRow {
        vendor: 0x10de,
        class_prefix: 0x0302,
        provisioning: Provisioning::NvidiaInBandCc,
        cc_labels: Some(
            CcLabels {
                mode_state: "nvidia.com/cc.mode.state",
                ready_state: "nvidia.com/cc.ready.state",
            },
        ),
    }
}

pub open spec fn switch_row() -> DeviceRow {
    DeviceRow {
        vendor: 0x10de,
        class_prefix: 0x0680,
        provisioning: Provisioning::NvidiaInBandPpcie,
        cc_labels: None,
    }
}

/// A device with no row is never touched. The identities match
/// kata-device-plugin's, so the two cannot disagree about what a device is.
pub open spec fn device_table() -> Seq<DeviceRow> {
    seq![gpu_row(), switch_row()]
}

/// The device table.
pub fn devices() -> (r: Vec<DeviceRow>)
    ensures
        r@ == device_table(),
{
    let table = vec![
        // NVIDIA GPU: 3D controller.
        DeviceRow {
            vendor: 0x10de,
            class_prefix: 0x0302,
            provisioning: Provisioning::NvidiaInBandCc,
            cc_labels: Some(
                CcLabels {
                    mode_state: "nvidia.com/cc.mode.state",
                    ready_state: "nvidia.com/cc.ready.state",
                },
            ),
        },
        // NVIDIA NVSwitch: bridge, other.
        DeviceRow {
            vendor: 0x10de,
            class_prefix: 0x0680,
            provisioning: Provisioning::NvidiaInBandPpcie,
            cc_labels: None,
        },
    ];
    assert(table@ =~= device_table());
    table
}

/// The base class and subclass of a class code: its two bytes above the
/// lowest.
pub open spec fn class_prefix_of(class: u32) -> int {
    (class as int / 256) % 65536
}

pub open spec fn row_matches(row: DeviceRow, vendor: u16, class: u32) -> bool {
    row.vendor == vendor && row.class_prefix == class_prefix_of(class)
}

/// The first of `rows` that is the identity of the device.
pub open spec fn first_row(rows: Seq<DeviceRow>, vendor: u16, class: u32) -> Option<DeviceRow>
    decreases rows.len(),
{
    if rows.len() == 0 {
        None
    } else if row_matches(rows[0], vendor, class) {
        Some(rows[0])
    } else {
        first_row(rows.skip(1), vendor, class)
    }
}

pub open spec fn row_of(vendor: u16, class: u32) -> Option<DeviceRow> {
    first_row(device_table(), vendor, class)
}

/// The row of the device table for a device, by its vendor and class code.
pub fn row_for(vendor: u16, class: u32) -> (r: Option<DeviceRow>)
    ensures
        r == row_of(vendor, class),
{
    let class_prefix: u16 = #[verifier::truncate] ((class >> 8) as u16);
    assert(#[verifier::truncate] ((class >> 8) as u16) == (class / 256) % 65536) by (bit_vector);
    let table = devices();
    assert(device_table().skip(0) == device_table());
    for i in 0..table.len()
        invariant
            table@ == device_table(),
            class_prefix == class_prefix_of(class),
            row_of(vendor, class) == first_row(device_table().skip(i as int), vendor, class),
    {
        let row = table[i];
        if row.vendor == vendor && row.class_prefix == class_prefix {
            return Some(row);
        }
        assert(device_table().skip(i as int).skip(1) == device_table().skip(i + 1));
    }
    None
}

/// A PCI device as it is enumerated, with what is known of its ids.
pub struct PciDevice {
    pub address: String,
    pub vendor: u16,
    pub device: u16,
    pub device_name: String,
    pub class: u32,
    /// Empty where no driver is bound.
    pub driver: String,
    pub iommu_group: i64,
    pub numa_node: i64,
    /// Whether devices of this class can be passed through at all.
    pub passthrough_capable: bool,
    /// The chip that the device id belongs to, where it is one with CC.
    pub chip: Option<Chip>,
    /// Whether the device id is that of a part coherently attached over
    /// NVLink-C2C.
    pub c2c: bool,
}

#[derive(Debug)]
pub struct DeviceState {
    pub address: String,
    pub vendor: u16,
    pub device_id: u16,
    pub device_name: String,
    /// Full 24-bit class code.
    pub class: u32,
    pub driver: Option<String>,
    pub iommu_group: i64,
    pub numa_node: i64,
    /// `None` means out of scope.
    pub row: Option<DeviceRow>,
    /// `None` means no in-band CC support.
    pub cc_chip: Option<&'static str>,
    /// `None` unless the caller probed.
    pub cc_mode: Option<CcMode>,
    /// `None` unless the caller probed.
    pub ppcie_mode: Option<PpcieMode>,
    /// The chip that the device id belongs to, where it is one with CC.
    pub chip: Option<Chip>,
    /// Coherently attached over NVLink-C2C, by the device id.
    pub c2c: bool,
}

impl Clone for DeviceState {
    fn clone(&self) -> (r: Self)
        ensures
            r == *self,
    {
        DeviceState {
            address: self.address.clone(),
            vendor: self.vendor,
            device_id: self.device_id,
            device_name: self.device_name.clone(),
            class: self.class,
            driver: match &self.driver {
                Some(driver) => Some(driver.clone()),
                None => None,
            },
            iommu_group: self.iommu_group,
            numa_node: self.numa_node,
            row: self.row,
            cc_chip: self.cc_chip,
            cc_mode: self.cc_mode,
            ppcie_mode: self.ppcie_mode,
            chip: self.chip,
            c2c: self.c2c,
        }
    }
}

impl DeviceState {
    pub open spec fn kind(self) -> Option<Provisioning> {
        match self.row {
            Some(row) => Some(row.provisioning),
            None => None,
        }
    }

    pub open spec fn is_gpu(self) -> bool {
        self.kind() == Some(Provisioning::NvidiaInBandCc)
    }

    pub open spec fn is_switch(self) -> bool {
        self.kind() == Some(Provisioning::NvidiaInBandPpcie)
    }

    pub open spec fn has_cc(self) -> bool {
        self.is_gpu() && self.cc_chip is Some
    }

    pub open spec fn has_ppcie(self) -> bool {
        self.is_switch() || (self.is_gpu() && (self.chip matches Some(chip) && chip.hopper))
    }

    /// The labels that the device's state calls for, each with its value.
    pub open spec fn labels(self) -> Seq<(Seq<char>, Seq<char>)> {
        match self.row {
            Some(row) => match row.cc_labels {
                Some(labels) => if self.ppcie_mode == Some(PpcieMode::On) {
                    seq![
                        (labels.mode_state@, "ppcie"@),
                        (labels.ready_state@, "true"@),
                    ]
                } else {
                    match self.cc_mode {
                        Some(cc) => seq![
                            (labels.mode_state@, cc.text()),
                            (
                                labels.ready_state@,
                                if cc != CcMode::Off { "true"@ } else { "false"@ },
                            ),
                        ],
                        None => Seq::empty(),
                    }
                },
                None => Seq::empty(),
            },
            None => Seq::empty(),
        }
    }

    pub fn provisioning(&self) -> (r: Option<Provisioning>)
        ensures
            r == self.kind(),
    {
        match self.row {
            Some(row) => Some(row.provisioning),
            None => None,
        }
    }

    pub fn in_scope(&self) -> (r: bool)
        ensures
            r == self.row is Some,
    {
        self.row.is_some()
    }

    /// False for an NVSwitch, which has no mode of its own, and for anything
    /// older than Hopper.
    pub fn cc_capable(&self) -> (r: bool)
        ensures
            r == self.has_cc(),
    {
        match self.provisioning() {
            Some(Provisioning::NvidiaInBandCc) => self.cc_chip.is_some(),
            Some(Provisioning::NvidiaInBandPpcie) | None => false,
        }
    }

    /// NVSwitches and Hopper GPUs; Blackwell encrypts NVLink instead and has
    /// no PPCIE. A switch's generation is only knowable from BAR0, so that
    /// is left to the opening of the device.
    pub fn carries_ppcie(&self) -> (r: bool)
        ensures
            r == self.has_ppcie(),
    {
        match self.provisioning() {
            Some(Provisioning::NvidiaInBandCc) => supports_ppcie(self.chip),
            Some(Provisioning::NvidiaInBandPpcie) => true,
            None => false,
        }
    }

    /// Empty until the mode is known: an unprobed run must not claim CC-ready.
    ///
    /// A PPCIE board runs with per-GPU CC off, so reporting the CC mode alone
    /// would label a protected node as not ready.
    pub fn cc_label_values(&self) -> (r: Vec<(&'static str, String)>)
        ensures
            label_texts(r@) == self.labels(),
    {
        let mut out: Vec<(&'static str, String)> = Vec::new();
        if let Some(row) = self.row {
            if let Some(labels) = row.cc_labels {
                match (self.ppcie_mode, self.cc_mode) {
                    (Some(PpcieMode::On), _) => {
                        out.push((labels.mode_state, "ppcie".to_owned()));
                        out.push((labels.ready_state, "true".to_owned()));
                    },
                    (_, Some(cc)) => {
                        let ready = if cc != CcMode::Off {
                            "true"
                        } else {
                            "false"
                        };
                        out.push((labels.mode_state, cc.name().to_owned()));
                        out.push((labels.ready_state, ready.to_owned()));
                    },
                    (_, None) => {},
                }
            }
        }
        assert(label_texts(out@) =~= self.labels());
        out
    }
}

pub open spec fn label_texts(v: Seq<(&'static str, String)>) -> Seq<(Seq<char>, Seq<char>)> {
    v.map_values(|label: (&'static str, String)| (label.0@, label.1@))
}

/// What discovery says of one device: nothing that would need the device to be
/// woken, so its modes are not known yet.
pub open spec fn state_of(dev: PciDevice) -> DeviceState {
    let row = row_of(dev.vendor, dev.class);
    DeviceState {
        address: dev.address,
        vendor: dev.vendor,
        device_id: dev.device,
        device_name: dev.device_name,
        class: dev.class,
        driver: if dev.driver@.len() == 0 { None } else { Some(dev.driver) },
        iommu_group: dev.iommu_group,
        numa_node: dev.numa_node,
        row,
        cc_chip: match row {
            Some(row) => if row.provisioning == Provisioning::NvidiaInBandCc {
                match dev.chip {
                    Some(chip) => Some(chip.name),
                    None => None,
                }
            } else {
                None
            },
            None => None,
        },
        cc_mode: None,
        ppcie_mode: None,
        chip: dev.chip,
        c2c: dev.c2c,
    }
}

/// The states of the devices that can be passed through, in their order.
pub open spec fn discovered(devices: Seq<PciDevice>) -> Seq<DeviceState> {
    devices.filter(can_pass_through()).map_values(|dev: PciDevice| state_of(dev))
}

pub open spec fn can_pass_through() -> spec_fn(PciDevice) -> bool {
    |dev: PciDevice| dev.passthrough_capable
}

fn state_for(dev: &PciDevice) -> (r: DeviceState)
    ensures
        r == state_of(*dev),
{
    let row = row_for(dev.vendor, dev.class);
    let chip_name = match row {
        Some(row) => match row.provisioning {
            Provisioning::NvidiaInBandCc => cc_chip(dev.chip),
            Provisioning::NvidiaInBandPpcie => None,
        },
        None => None,
    };
    DeviceState {
        address: dev.address.clone(),
        vendor: dev.vendor,
        device_id: dev.device,
        device_name: dev.device_name.clone(),
        class: dev.class,
        driver: if dev.driver.as_str().is_empty() {
            None
        } else {
            Some(dev.driver.clone())
        },
        iommu_group: dev.iommu_group,
        numa_node: dev.numa_node,
        row,
        cc_chip: chip_name,
        cc_mode: None,
        ppcie_mode: None,
        chip: dev.chip,
        c2c: dev.c2c,
    }
}

/// The passthrough-capable devices, in the order in which they were
/// enumerated, each matched against the device table.
pub fn discover(devices: &Vec<PciDevice>) -> (r: Vec<DeviceState>)
    ensures
        r@ == discovered(devices@),
{
    let mut out: Vec<DeviceState> = Vec::new();
    assert(devices@.take(0).filter(can_pass_through()) =~= Seq::<PciDevice>::empty()) by {
        reveal(Seq::filter);
    }
    for i in 0..devices.len()
        invariant
            out@ == discovered(devices@.take(i as int)),
    {
        assert(devices@.take(i + 1) == devices@.take(i as int).push(devices@[i as int]));
        proof {
            devices@.take(i as int).lemma_filter_push(devices@[i as int], can_pass_through());
        }
        if devices[i].passthrough_capable {
            out.push(state_for(&devices[i]));
        }
        assert(out@ =~= discovered(devices@.take(i + 1)));
    }
    assert(devices@.take(devices@.len() as int) == devices@);
    out
}

/// The devices that have a row in the device table.
pub fn in_scope(states: &Vec<DeviceState>) -> (r: Vec<DeviceState>)
    ensures
        r@ == scoped(states@),
{
    let mut out: Vec<DeviceState> = Vec::new();
    assert(states@.take(0).filter(has_row()) =~= Seq::<DeviceState>::empty()) by {
        reveal(Seq::filter);
    }
    for i in 0..states.len()
        invariant
            out@ == scoped(states@.take(i as int)),
    {
        assert(states@.take(i + 1) == states@.take(i as int).push(states@[i as int]));
        proof {
            states@.take(i as int).lemma_filter_push(states@[i as int], has_row());
        }
        if states[i].in_scope() {
            out.push(states[i].clone());
        }
    }
    assert(states@.take(states@.len() as int) == states@);
    out
}

pub open spec fn scoped(states: Seq<DeviceState>) -> Seq<DeviceState> {
    states.filter(has_row())
}

pub open spec fn has_row() -> spec_fn(DeviceState) -> bool {
    |state: DeviceState| state.row is Some
}

/// The device table has one row for an identity, so the order of its rows
/// decides nothing.
pub proof fn law_one_row_per_identity(vendor: u16, class: u32, i: int, j: int)
    requires
        0 <= i < device_table().len(),
        0 <= j < device_table().len(),
        row_matches(device_table()[i], vendor, class),
        row_matches(device_table()[j], vendor, class),
    ensures
        i == j,
        row_of(vendor, class) == Some(device_table()[i]),
{
    reveal_with_fuel(first_row, 3);
}

/// A device that matches no row of the table is out of scope.
pub proof fn law_no_row_no_scope(dev: PciDevice)
    requires
        forall|i: int|
            0 <= i < device_table().len() ==> !row_matches(
                #[trigger] device_table()[i],
                dev.vendor,
                dev.class,
            ),
    ensures
        state_of(dev).row is None,
        !state_of(dev).has_cc(),
        !state_of(dev).has_ppcie(),
{
    reveal_with_fuel(first_row, 3);
    assert(!row_matches(device_table()[0], dev.vendor, dev.class));
    assert(!row_matches(device_table()[1], dev.vendor, dev.class));
}

/// Discovery keeps the order of the enumeration: whatever the addresses are
/// sorted by there, they are sorted by it in what is discovered.
pub proof fn law_discovery_keeps_order(devices: Seq<PciDevice>, key: spec_fn(Seq<char>) -> int)
    requires
        forall|i: int, j: int|
            0 <= i < j < devices.len() ==> key((#[trigger] devices[i]).address@) <= key(
                (#[trigger] devices[j]).address@,
            ),
    ensures
        forall|i: int, j: int|
            0 <= i < j < discovered(devices).len() ==> key(
                (#[trigger] discovered(devices)[i]).address@,
            ) <= key((#[trigger] discovered(devices)[j]).address@),
    decreases devices.len(),
{
    broadcast use Seq::lemma_filter_push;

    let capable = can_pass_through();
    if devices.len() == 0 {
        reveal(Seq::filter);
    } else {
        let front = devices.drop_last();
        assert(devices == front.push(devices.last()));
        law_discovery_keeps_order(front, key);
        assert forall|i: int, j: int| 0 <= i < j < discovered(devices).len() implies key(
            (#[trigger] discovered(devices)[i]).address@,
        ) <= key((#[trigger] discovered(devices)[j]).address@) by {
            assert(discovered(front)[i] == discovered(devices)[i]);
            if j < discovered(front).len() {
                assert(discovered(front)[j] == discovered(devices)[j]);
            } else {
                front.lemma_filter_contains_rev(capable, front.filter(capable)[i]);
                let k = choose|k: int| 0 <= k < front.len() && front[k] == front.filter(capable)[i];
                assert(devices[k] == front[k]);
                assert(devices[devices.len() - 1] == devices.last());
            }
        }
    }
}

/// Nothing is labelled while the mode is not known: what was never probed must
/// not be claimed ready.
pub proof fn law_no_label_without_a_known_mode(state: DeviceState)
    requires
        state.cc_mode is None,
        state.ppcie_mode is None,
    ensures
        state.labels().len() == 0,
{
}

/// A device that is labelled ready is one that is protected: PPCIE is on, or
/// CC is not off.
pub proof fn law_ready_means_protected(state: DeviceState, i: int)
    requires
        0 <= i < state.labels().len(),
        state.row matches Some(row) && (row.cc_labels matches Some(labels)
            && state.labels()[i].0 == labels.ready_state@ && labels.ready_state@
            != labels.mode_state@),
    ensures
        state.labels()[i].1 == "true"@ <==> state.ppcie_mode == Some(PpcieMode::On) || (
        state.cc_mode matches Some(cc) && cc != CcMode::Off),
{
    reveal_strlit("true");
    reveal_strlit("false");
    assert("true"@.len() == 4);
    assert("false"@.len() == 5);
}

/// An NVIDIA 3D controller is a GPU whose CC mode is set, an NVIDIA bridge of
/// the class other is an NVSwitch, and nothing else has a row. Whatever else
/// there is to a device, and the last byte of its class, decide nothing. Only
/// the GPUs are labelled.
pub proof fn law_vendor_and_class_make_the_row(vendor: u16, class: u32)
    ensures
        row_of(vendor, class) is Some <==> vendor == 0x10de && ((class / 256) % 65536 == 0x0302 || (
        class / 256) % 65536 == 0x0680),
        row_of(vendor, class) matches Some(row) ==> {
            &&& row.provisioning == Provisioning::NvidiaInBandCc <==> (class / 256) % 65536
                == 0x0302
            &&& row.provisioning == Provisioning::NvidiaInBandPpcie <==> (class / 256) % 65536
                == 0x0680
            &&& row.cc_labels is Some <==> (class / 256) % 65536 == 0x0302
            &&& row.cc_labels matches Some(labels) ==> {
                &&& labels.mode_state@ == "nvidia.com/cc.mode.state"@
                &&& labels.ready_state@ == "nvidia.com/cc.ready.state"@
            }
        },
{
    reveal_with_fuel(first_row, 3);
    assert(device_table()[0] == gpu_row());
    assert(device_table().skip(1)[0] == switch_row());
}

/// What discovery says of a device is what was enumerated of it. No driver is
/// one that has no name, a chip is told of a GPU alone, and the modes are not
/// known.
pub proof fn law_a_state_tells_what_was_enumerated(dev: PciDevice)
    ensures
        state_of(dev).address == dev.address,
        state_of(dev).vendor == dev.vendor,
        state_of(dev).device_id == dev.device,
        state_of(dev).device_name == dev.device_name,
        state_of(dev).class == dev.class,
        state_of(dev).iommu_group == dev.iommu_group,
        state_of(dev).numa_node == dev.numa_node,
        state_of(dev).driver is None <==> dev.driver@ == Seq::<char>::empty(),
        state_of(dev).driver matches Some(driver) ==> driver == dev.driver,
        state_of(dev).row is Some <==> dev.vendor == 0x10de && ((dev.class / 256) % 65536 == 0x0302
            || (dev.class / 256) % 65536 == 0x0680),
        state_of(dev).cc_chip is Some <==> dev.vendor == 0x10de && (dev.class / 256) % 65536
            == 0x0302 && dev.chip is Some,
        state_of(dev).cc_chip matches Some(name) ==> name == dev.chip->0.name,
        state_of(dev).cc_mode is None,
        state_of(dev).ppcie_mode is None,
        state_of(dev).chip == dev.chip,
        state_of(dev).c2c == dev.c2c,
{
    law_vendor_and_class_make_the_row(dev.vendor, dev.class);
    assert(dev.driver@.len() == 0 <==> dev.driver@ =~= Seq::<char>::empty());
}

/// A GPU can do CC where its chip has it, and PPCIE where that chip is a Hopper.
/// An NVSwitch carries PPCIE and has no CC. Nothing else can do either.
pub proof fn law_the_chip_decides_what_a_device_can_do(state: DeviceState)
    ensures
        state.has_cc() <==> (state.row matches Some(row) && row.provisioning
            == Provisioning::NvidiaInBandCc && state.cc_chip is Some),
        state.has_ppcie() <==> (state.row matches Some(row) && match row.provisioning {
            Provisioning::NvidiaInBandPpcie => true,
            Provisioning::NvidiaInBandCc => state.chip matches Some(chip) && chip.hopper,
        }),
        state.is_gpu() <==> (state.row matches Some(row) && row.provisioning
            == Provisioning::NvidiaInBandCc),
        state.is_switch() <==> (state.row matches Some(row) && row.provisioning
            == Provisioning::NvidiaInBandPpcie),
        state.kind() is None <==> state.row is None,
{
}

/// Discovery takes the devices one by one: what is found of two lists is what
/// is found of each, and a device is found exactly where it can be passed
/// through.
pub proof fn law_discovery_goes_device_by_device(
    a: Seq<PciDevice>,
    b: Seq<PciDevice>,
    dev: PciDevice,
)
    ensures
        discovered(a + b) == discovered(a) + discovered(b),
        dev.passthrough_capable ==> discovered(seq![dev]) == seq![state_of(dev)],
        !dev.passthrough_capable ==> discovered(seq![dev]) == Seq::<DeviceState>::empty(),
{
    let capable = can_pass_through();
    Seq::filter_distributes_over_add(a, b, capable);
    crate::filter::lemma_filter_one(dev, capable);
    assert(discovered(a + b) =~= discovered(a) + discovered(b));
    if dev.passthrough_capable {
        assert(discovered(seq![dev]) =~= seq![state_of(dev)]);
    } else {
        assert(discovered(seq![dev]) =~= Seq::<DeviceState>::empty());
    }
}

/// A state is in scope exactly where it has a row, whatever driver, IOMMU group
/// or NUMA node it has, and the states in scope stay in their order.
pub proof fn law_a_row_is_all_that_scope_asks_for(
    a: Seq<DeviceState>,
    b: Seq<DeviceState>,
    state: DeviceState,
)
    ensures
        scoped(a).contains(state) <==> a.contains(state) && state.row is Some,
        scoped(a + b) == scoped(a) + scoped(b),
        state.row is Some ==> scoped(seq![state]) == seq![state],
        state.row is None ==> scoped(seq![state]) == Seq::<DeviceState>::empty(),
{
    crate::filter::lemma_filter_contains_iff(a, has_row());
    Seq::filter_distributes_over_add(a, b, has_row());
    crate::filter::lemma_filter_one(state, has_row());
}

/// Every device that can be passed through and is an NVIDIA GPU or NVSwitch by
/// its vendor and class is in scope, whatever else is known of it.
pub proof fn law_every_gpu_and_switch_is_in_scope(devices: Seq<PciDevice>, i: int)
    requires
        0 <= i < devices.len(),
        devices[i].passthrough_capable,
        devices[i].vendor == 0x10de,
        (devices[i].class / 256) % 65536 == 0x0302 || (devices[i].class / 256) % 65536 == 0x0680,
    ensures
        scoped(discovered(devices)).contains(state_of(devices[i])),
{
    let capable = can_pass_through();
    let state = state_of(devices[i]);
    law_a_state_tells_what_was_enumerated(devices[i]);
    devices.lemma_filter_contains(capable, i);
    let kept = devices.filter(capable);
    let k = choose|k: int| 0 <= k < kept.len() && kept[k] == devices[i];
    assert(discovered(devices)[k] == state);
    law_a_row_is_all_that_scope_asks_for(discovered(devices), Seq::empty(), state);
}

/// Nothing is in scope but what was enumerated, can be passed through, and is an
/// NVIDIA GPU or NVSwitch.
pub proof fn law_only_gpus_and_switches_are_in_scope(devices: Seq<PciDevice>, state: DeviceState)
    requires
        scoped(discovered(devices)).contains(state),
    ensures
        exists|i: int|
            {
                &&& 0 <= i < devices.len()
                &&& state == state_of(#[trigger] devices[i])
                &&& devices[i].passthrough_capable
                &&& devices[i].vendor == 0x10de
                &&& (devices[i].class / 256) % 65536 == 0x0302 || (devices[i].class / 256) % 65536
                    == 0x0680
            },
{
    let capable = can_pass_through();
    let found = discovered(devices);
    law_a_row_is_all_that_scope_asks_for(found, Seq::empty(), state);
    let kept = devices.filter(capable);
    let k = choose|k: int| 0 <= k < found.len() && found[k] == state;
    devices.lemma_filter_pred(capable, k);
    devices.lemma_filter_contains_rev(capable, kept[k]);
    let i = choose|i: int| 0 <= i < devices.len() && devices[i] == kept[k];
    law_a_state_tells_what_was_enumerated(devices[i]);
}

/// A device of a row with labels, whose mode is known, gets two: its mode, which
/// is PPCIE exactly where PPCIE is on and else the CC mode by its name, and
/// whether it is ready, which it is where PPCIE is on or CC is not off. Where the
/// mode is not known, or the row has no labels, there are none.
pub proof fn law_labels_tell_the_mode(state: DeviceState)
    ensures
        state.labels().len() == 0 || state.labels().len() == 2,
        state.labels().len() == 2 <==> {
            &&& state.row matches Some(row)
            &&& row.cc_labels is Some
            &&& state.ppcie_mode == Some(PpcieMode::On) || state.cc_mode is Some
        },
        state.labels().len() == 2 ==> {
            let labels = state.row->0.cc_labels->0;
            &&& state.labels()[0].0 == labels.mode_state@
            &&& state.labels()[1].0 == labels.ready_state@
            &&& state.labels()[0].1 == "ppcie"@ <==> state.ppcie_mode == Some(PpcieMode::On)
            &&& state.ppcie_mode != Some(PpcieMode::On) ==> {
                &&& state.cc_mode == Some(CcMode::Off) ==> state.labels()[0].1 == "off"@
                &&& state.cc_mode == Some(CcMode::On) ==> state.labels()[0].1 == "on"@
                &&& state.cc_mode == Some(CcMode::DevTools) ==> state.labels()[0].1 == "devtools"@
            }
            &&& state.labels()[1].1 == "true"@ <==> state.ppcie_mode == Some(PpcieMode::On)
                || state.cc_mode == Some(CcMode::On) || state.cc_mode == Some(CcMode::DevTools)
            &&& state.labels()[1].1 == "true"@ || state.labels()[1].1 == "false"@
        },
{
    reveal_strlit("off");
    reveal_strlit("on");
    reveal_strlit("devtools");
    reveal_strlit("ppcie");
    reveal_strlit("true");
    reveal_strlit("false");
    assert("ppcie"@[0] == 'p' && "off"@[0] == 'o' && "on"@[0] == 'o' && "devtools"@[0] == 'd');
    assert("true"@.len() == 4 && "false"@.len() == 5);
}

/// Labels as text are the labels, one for one.
pub proof fn law_label_texts_are_the_labels(v: Seq<(&'static str, String)>)
    ensures
        label_texts(v).len() == v.len(),
        forall|i: int|
            0 <= i < v.len() ==> #[trigger] label_texts(v)[i] == (v[i].0@, v[i].1@),
{
}

/// The device table has two rows: NVIDIA 3D controllers and NVIDIA bridges of the
/// class other.
pub proof fn law_the_device_table_has_two_rows()
    ensures
        device_table().len() == 2,
        device_table()[0].vendor == 0x10de,
        device_table()[0].class_prefix == 0x0302,
        device_table()[0].provisioning == Provisioning::NvidiaInBandCc,
        device_table()[0].cc_labels is Some,
        device_table()[1].vendor == 0x10de,
        device_table()[1].class_prefix == 0x0680,
        device_table()[1].provisioning == Provisioning::NvidiaInBandPpcie,
        device_table()[1].cc_labels is None,
{
}

} // verus!
