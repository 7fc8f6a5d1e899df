//! Whether this node can do VFIO passthrough at all.
//!
//! Checked before anything is touched, because none of it is fixable from a
//! pod once a mode transition is half done.
use vstd::prelude::*;

use crate::order::sort;
use crate::refusal::Refusal;
use crate::text::join;

verus! {

/// An entry of a driver's directory. One whose name is a PCI address is the
/// link to a device that the driver holds; the `module` link is not one.
pub struct DriverEntry {
    pub name: String,
    pub is_device: bool,
}

/// What the node's sysfs shows of it.
pub struct HostFacts {
    /// The directory of the IOMMU groups.
    pub groups_dir: String,
    /// The IOMMU groups; none where the directory cannot be read.
    pub iommu_groups: Vec<String>,
    /// The directory of the nvidia driver; empty where it is not loaded.
    pub nvidia: Vec<DriverEntry>,
    /// The directory of the nouveau driver; empty where it is not loaded.
    pub nouveau: Vec<DriverEntry>,
}

/// The names of the entries that are devices, as they stand.
pub open spec fn device_names(entries: Seq<DriverEntry>) -> Seq<Seq<char>>
    decreases entries.len(),
{
    if entries.len() == 0 {
        Seq::empty()
    } else if entries.last().is_device {
        device_names(entries.drop_last()).push(entries.last().name@)
    } else {
        device_names(entries.drop_last())
    }
}

/// The devices that a driver holds, in order.
pub open spec fn held(entries: Seq<DriverEntry>) -> Seq<Seq<char>> {
    crate::order::sorted(device_names(entries))
}

/// The devices that a driver holds. A driver directory holds a link per bound
/// device, named by address, and a `module` link that is not a device at all.
pub fn devices_held_by(entries: &Vec<DriverEntry>) -> (r: Vec<String>)
    ensures
        crate::text::texts(r@) == held(entries@),
{
    let mut names: Vec<String> = Vec::new();
    for i in 0..entries.len()
        invariant
            crate::text::texts(names@) == device_names(entries@.take(i as int)),
    {
        assert(entries@.take(i + 1).drop_last() == entries@.take(i as int));
        if entries[i].is_device {
            let ghost so_far = names@;
            names.push(entries[i].name.clone());
            assert(crate::text::texts(names@) =~= crate::text::texts(so_far).push(
                entries@[i as int].name@,
            ));
        }
    }
    assert(entries@.take(entries@.len() as int) == entries@);
    sort(&names)
}

pub open spec fn iommu_off(groups_dir: Seq<char>) -> Seq<char> {
    "no IOMMU groups under "@ + groups_dir
        + ": the IOMMU is off. Enable it on the kernel command line (intel_iommu=on / amd_iommu=on) and reboot"@
}

pub fn check_iommu(facts: &HostFacts) -> (r: Result<(), Refusal>)
    ensures
        match r {
            Ok(_) => facts.iommu_groups@.len() > 0,
            Err(refusal) => facts.iommu_groups@.len() == 0 && refusal.message@ == iommu_off(
                facts.groups_dir@,
            ),
        },
{
    if facts.iommu_groups.len() == 0 {
        let mut message = "no IOMMU groups under ".to_owned();
        message.append(facts.groups_dir.as_str());
        message.append(
            ": the IOMMU is off. Enable it on the kernel command line (intel_iommu=on / amd_iommu=on) and reboot",
        );
        return Err(Refusal { message });
    }
    Ok(())
}

pub open spec fn driver_in_the_way(name: Seq<char>, held: Seq<Seq<char>>) -> Seq<char> {
    "the "@ + name + " driver holds "@ + crate::text::joined(held, ", "@)
        + ": a passthrough node must not run a host GPU driver. Blacklist "@ + name
        + " in /etc/modprobe.d, rebuild the initramfs, and reboot"@
}

fn check_driver(name: &str, entries: &Vec<DriverEntry>) -> (r: Result<(), Refusal>)
    ensures
        match r {
            Ok(_) => held(entries@).len() == 0,
            Err(refusal) => held(entries@).len() > 0 && refusal.message@ == driver_in_the_way(
                name@,
                held(entries@),
            ),
        },
{
    let devices = devices_held_by(entries);
    assert(devices@.len() == crate::text::texts(devices@).len());
    if devices.len() == 0 {
        return Ok(());
    }
    let mut message = "the ".to_owned();
    message.append(name);
    message.append(" driver holds ");
    message.append(join(&devices, ", ").as_str());
    message.append(": a passthrough node must not run a host GPU driver. Blacklist ");
    message.append(name);
    message.append(" in /etc/modprobe.d, rebuild the initramfs, and reboot");
    Err(Refusal { message })
}

/// Why a host GPU driver rules the node out, where one does. nvidia is looked
/// at before nouveau.
///
/// Their absence is why `modprobe.d` alone is enough at boot: nothing races
/// `vfio-pci` for the device, so it needs no initramfs ordering games.
pub open spec fn driver_conflict(facts: HostFacts) -> Option<Seq<char>> {
    if held(facts.nvidia@).len() > 0 {
        Some(driver_in_the_way("nvidia"@, held(facts.nvidia@)))
    } else if held(facts.nouveau@).len() > 0 {
        Some(driver_in_the_way("nouveau"@, held(facts.nouveau@)))
    } else {
        None
    }
}

/// Why the node cannot do passthrough, where it cannot.
pub open spec fn host_conflict(facts: HostFacts) -> Option<Seq<char>> {
    if facts.iommu_groups@.len() == 0 {
        Some(iommu_off(facts.groups_dir@))
    } else {
        driver_conflict(facts)
    }
}

pub fn check_no_conflicting_driver(facts: &HostFacts) -> (r: Result<(), Refusal>)
    ensures
        match r {
            Ok(_) => driver_conflict(*facts) is None,
            Err(refusal) => driver_conflict(*facts) == Some(refusal.message@),
        },
{
    match check_driver("nvidia", &facts.nvidia) {
        Ok(_) => check_driver("nouveau", &facts.nouveau),
        Err(refusal) => Err(refusal),
    }
}

/// Says nothing about vfio drivers: requiring `vfio-pci` here would load it
/// on nodes whose GPUs want a variant driver instead.
pub fn check(facts: &HostFacts) -> (r: Result<(), Refusal>)
    ensures
        match r {
            Ok(_) => host_conflict(*facts) is None,
            Err(refusal) => host_conflict(*facts) == Some(refusal.message@),
        },
{
    match check_iommu(facts) {
        Ok(_) => check_no_conflicting_driver(facts),
        Err(refusal) => Err(refusal),
    }
}

/// Probing reads GPU registers over BAR0, which is not ours to do on a device
/// another driver is driving, and returns values that cannot be trusted
/// anyway. Plain `status` reads sysfs only and still answers.
pub fn check_probeable(facts: &HostFacts) -> (r: Result<(), Refusal>)
    ensures
        match r {
            Ok(_) => driver_conflict(*facts) is None,
            Err(refusal) => driver_conflict(*facts) == Some(refusal.message@),
        },
{
    check_no_conflicting_driver(facts)
}

/// A driver that holds no device is in nobody's way, whatever else stands in
/// its directory; one that holds a device always is.
pub proof fn law_a_driver_conflicts_exactly_when_it_holds_a_device(facts: HostFacts)
    ensures
        driver_conflict(facts) is Some <==> ((exists|i: int|
            0 <= i < facts.nvidia@.len() && (#[trigger] facts.nvidia@[i]).is_device) || (exists|
            i: int,
        |
            0 <= i < facts.nouveau@.len() && (#[trigger] facts.nouveau@[i]).is_device)),
{
    lemma_holds_something(facts.nvidia@);
    lemma_holds_something(facts.nouveau@);
}

proof fn lemma_holds_something(entries: Seq<DriverEntry>)
    ensures
        held(entries).len() > 0 <==> exists|i: int|
            0 <= i < entries.len() && (#[trigger] entries[i]).is_device,
{
    crate::order::lemma_sorted(device_names(entries));
    broadcast use vstd::seq_lib::group_to_multiset_ensures;

    assert(held(entries).to_multiset().len() == device_names(entries).to_multiset().len());
    lemma_names_something(entries);
}

proof fn lemma_names_something(entries: Seq<DriverEntry>)
    ensures
        device_names(entries).len() > 0 <==> exists|i: int|
            0 <= i < entries.len() && (#[trigger] entries[i]).is_device,
    decreases entries.len(),
{
    if entries.len() > 0 {
        let front = entries.drop_last();
        lemma_names_something(front);
        if device_names(front).len() > 0 {
            let i = choose|i: int| 0 <= i < front.len() && (#[trigger] front[i]).is_device;
            assert(entries[i].is_device);
        }
        if entries.last().is_device {
            assert(entries[entries.len() - 1].is_device);
        } else if exists|i: int| 0 <= i < entries.len() && (#[trigger] entries[i]).is_device {
            let i = choose|i: int| 0 <= i < entries.len() && (#[trigger] entries[i]).is_device;
            assert(front[i].is_device);
        }
    }
}

/// What checking tells of a driver is every device it holds, and in order.
pub proof fn law_all_held_devices_are_named(entries: Seq<DriverEntry>)
    ensures
        crate::order::is_sorted(held(entries)),
        held(entries).to_multiset() == device_names(entries).to_multiset(),
{
    crate::order::lemma_sorted(device_names(entries));
}

/// A node can do passthrough exactly where it has an IOMMU group and no device
/// is held by the nvidia or the nouveau driver.
pub proof fn law_a_host_is_fit_exactly_without_conflict(facts: HostFacts)
    ensures
        host_conflict(facts) is None <==> {
            &&& facts.iommu_groups@.len() > 0
            &&& forall|i: int|
                0 <= i < facts.nvidia@.len() ==> !(#[trigger] facts.nvidia@[i]).is_device
            &&& forall|i: int|
                0 <= i < facts.nouveau@.len() ==> !(#[trigger] facts.nouveau@[i]).is_device
        },
        driver_conflict(facts) is None <==> {
            &&& forall|i: int|
                0 <= i < facts.nvidia@.len() ==> !(#[trigger] facts.nvidia@[i]).is_device
            &&& forall|i: int|
                0 <= i < facts.nouveau@.len() ==> !(#[trigger] facts.nouveau@[i]).is_device
        },
{
    law_a_driver_conflicts_exactly_when_it_holds_a_device(facts);
}

/// A driver holds exactly the devices that its directory has links to.
pub proof fn law_a_driver_holds_what_it_links_to(
    a: Seq<DriverEntry>,
    b: Seq<DriverEntry>,
    entry: DriverEntry,
)
    ensures
        device_names(a + b) == device_names(a) + device_names(b),
        entry.is_device ==> device_names(seq![entry]) == seq![entry.name@],
        !entry.is_device ==> device_names(seq![entry]).len() == 0,
        held(a).to_multiset() == device_names(a).to_multiset(),
        forall|i: int, j: int|
            0 <= i < j < held(a).len() ==> crate::order::text_le(
                #[trigger] held(a)[i],
                #[trigger] held(a)[j],
            ),
    decreases b.len(),
{
    crate::order::lemma_sorted(device_names(a));
    reveal_with_fuel(device_names, 2);
    assert(seq![entry].drop_last() =~= Seq::<DriverEntry>::empty());
    if entry.is_device {
        assert(device_names(seq![entry]) =~= seq![entry.name@]);
    }
    if b.len() == 0 {
        assert(a + b =~= a);
        assert(device_names(a + b) =~= device_names(a) + device_names(b));
    } else {
        assert((a + b).drop_last() =~= a + b.drop_last());
        law_a_driver_holds_what_it_links_to(a, b.drop_last(), entry);
        assert(device_names(a + b) =~= device_names(a) + device_names(b));
    }
}

/// What a node is told it is refused for: an IOMMU that is off before anything
/// else, then what the nvidia driver holds, then what nouveau holds.
pub proof fn law_a_host_is_told_what_is_wrong(facts: HostFacts)
    ensures
        facts.iommu_groups@.len() == 0 ==> host_conflict(facts) == Some(
            "no IOMMU groups under "@ + facts.groups_dir@
                + ": the IOMMU is off. Enable it on the kernel command line (intel_iommu=on / amd_iommu=on) and reboot"@,
        ),
        facts.iommu_groups@.len() > 0 ==> host_conflict(facts) == driver_conflict(facts),
        held(facts.nvidia@).len() > 0 ==> driver_conflict(facts) == Some(
            "the "@ + "nvidia"@ + " driver holds "@ + crate::text::joined(
                held(facts.nvidia@),
                ", "@,
            ) + ": a passthrough node must not run a host GPU driver. Blacklist "@ + "nvidia"@
                + " in /etc/modprobe.d, rebuild the initramfs, and reboot"@,
        ),
        held(facts.nvidia@).len() == 0 && held(facts.nouveau@).len() > 0 ==> driver_conflict(facts)
            == Some(
            "the "@ + "nouveau"@ + " driver holds "@ + crate::text::joined(
                held(facts.nouveau@),
                ", "@,
            ) + ": a passthrough node must not run a host GPU driver. Blacklist "@ + "nouveau"@
                + " in /etc/modprobe.d, rebuild the initramfs, and reboot"@,
        ),
{
}

} // verus!
