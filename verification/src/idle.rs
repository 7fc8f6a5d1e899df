//! Whether anything is currently using a device.
//!
//! A CC mode change resets the GPU, taking it from any VM mid-computation. A
//! VM holding one always has its VFIO node open, so that is the evidence.
use vstd::prelude::*;

use crate::device::DeviceState;
use crate::numeral::{parse_pid, signed_decimal};
use crate::order::at_most;
use crate::sorting::{arrange, drop_repeats, Ranked};
use crate::text::{same, trim};

verus! {

pub const PROC: &'static str = "/proc";

pub const DEV_VFIO: &'static str = "/dev/vfio";

/// A path, component by component.
#[derive(Debug, PartialEq, Eq)]
pub struct NodePath {
    pub parts: Vec<String>,
}

impl View for NodePath {
    type V = Seq<Seq<char>>;

    open spec fn view(&self) -> Seq<Seq<char>> {
        crate::text::texts(self.parts@)
    }
}

impl Clone for NodePath {
    fn clone(&self) -> (r: Self)
        ensures
            r@ == self@,
    {
        let mut parts: Vec<String> = Vec::new();
        for i in 0..self.parts.len()
            invariant
                crate::text::texts(parts@) == self@.take(i as int),
        {
            let ghost so_far = parts@;
            parts.push(self.parts[i].clone());
            assert(crate::text::texts(parts@) =~= crate::text::texts(so_far).push(self@[i as int]));
            assert(self@.take(i + 1) =~= self@.take(i as int).push(self@[i as int]));
        }
        assert(self@.take(self.parts@.len() as int) =~= self@);
        NodePath { parts }
    }
}

/// `a` comes before `b` or is `b`: the first component that differs decides,
/// and a directory comes before what is in it.
pub open spec fn path_le(a: Seq<Seq<char>>, b: Seq<Seq<char>>) -> bool
    decreases a.len(),
{
    if a.len() == 0 {
        true
    } else if b.len() == 0 {
        false
    } else if a[0] != b[0] {
        crate::order::text_le(a[0], b[0])
    } else {
        path_le(a.skip(1), b.skip(1))
    }
}

impl NodePath {
    /// The path of `name` in this directory.
    fn join(&self, name: &str) -> (r: NodePath)
        ensures
            r@ == self@.push(name@),
    {
        let mut path = self.clone();
        let ghost before = path.parts@;
        path.parts.push(name.to_owned());
        assert(path@ =~= crate::text::texts(before).push(name@));
        path
    }

    fn is(&self, other: &NodePath) -> (r: bool)
        ensures
            r == (self@ == other@),
    {
        if self.parts.len() != other.parts.len() {
            assert(self@.len() != other@.len());
            return false;
        }
        for i in 0..self.parts.len()
            invariant
                self.parts@.len() == other.parts@.len(),
                forall|j: int| 0 <= j < i ==> self@[j] == other@[j],
        {
            if !same(self.parts[i].as_str(), other.parts[i].as_str()) {
                assert(self@[i as int] != other@[i as int]);
                return false;
            }
        }
        assert(self@ =~= other@);
        true
    }

    fn at_most(&self, other: &NodePath) -> (r: bool)
        ensures
            r == path_le(self@, other@),
    {
        let mut i: usize = 0;
        assert(self@.skip(0) =~= self@);
        assert(other@.skip(0) =~= other@);
        while i < self.parts.len() && i < other.parts.len() && same(
            self.parts[i].as_str(),
            other.parts[i].as_str(),
        )
            invariant
                i <= self.parts@.len(),
                i <= other.parts@.len(),
                path_le(self@, other@) == path_le(self@.skip(i as int), other@.skip(i as int)),
            decreases self.parts@.len() - i,
        {
            assert(self@.skip(i as int).skip(1) =~= self@.skip(i + 1));
            assert(other@.skip(i as int).skip(1) =~= other@.skip(i + 1));
            assert(self@[i as int] == other@[i as int]);
            i = i + 1;
        }
        if i == self.parts.len() {
            return true;
        }
        if i == other.parts.len() {
            return false;
        }
        assert(self@.skip(i as int)[0] == self.parts@[i as int]@);
        assert(other@.skip(i as int)[0] == other.parts@[i as int]@);
        at_most(self.parts[i].as_str(), other.parts[i].as_str())
    }
}

/// A process that holds a device's node open.
#[derive(Debug, PartialEq, Eq)]
pub struct Holder {
    pub pid: u32,
    pub comm: String,
    pub node: NodePath,
}

/// A [`Holder`] as text.
#[verifier::ext_equal]
pub struct HolderText {
    pub pid: u32,
    pub comm: Seq<char>,
    pub node: Seq<Seq<char>>,
}

impl View for Holder {
    type V = HolderText;

    open spec fn view(&self) -> HolderText {
        HolderText { pid: self.pid, comm: self.comm@, node: self.node@ }
    }
}

impl Clone for Holder {
    fn clone(&self) -> (r: Self)
        ensures
            r@ == self@,
    {
        Holder { pid: self.pid, comm: self.comm.clone(), node: self.node.clone() }
    }
}

/// An entry of `/proc`, with what could be read of it.
pub struct Process {
    /// The name of the entry: the process id, where it is a process.
    pub name: String,
    /// Its `comm` file.
    pub comm: Option<String>,
    /// What the links of its `fd` directory lead to; none where the directory
    /// cannot be read.
    pub targets: Vec<NodePath>,
}

/// The node of a device's IOMMU group, where it has one.
pub open spec fn group_node(dev_vfio: Seq<Seq<char>>, iommu_group: i64) -> Seq<Seq<Seq<char>>> {
    if iommu_group >= 0 {
        seq![dev_vfio.push(crate::numeral::decimal_text(iommu_group as int))]
    } else {
        Seq::empty()
    }
}

/// The nodes through which a device can be held: that of its IOMMU group, and
/// one per character device that it has.
pub open spec fn nodes_of(
    dev_vfio: Seq<Seq<char>>,
    iommu_group: i64,
    cdevs: Seq<Seq<char>>,
) -> Seq<Seq<Seq<char>>> {
    group_node(dev_vfio, iommu_group) + cdevs.map_values(
        |name: Seq<char>| dev_vfio.push("devices"@).push(name),
    )
}

pub open spec fn paths(v: Seq<NodePath>) -> Seq<Seq<Seq<char>>> {
    v.map_values(|path: NodePath| path@)
}

/// Both the legacy group node and the newer cdev: which one a VMM opens is up
/// to the VMM and the kernel.
pub fn vfio_nodes(dev_vfio: &NodePath, state: &DeviceState, cdevs: &Vec<String>) -> (r: Vec<
    NodePath,
>)
    ensures
        paths(r@) == nodes_of(dev_vfio@, state.iommu_group, crate::text::texts(cdevs@)),
{
    let mut nodes: Vec<NodePath> = Vec::new();
    if state.iommu_group >= 0 {
        nodes.push(dev_vfio.join(signed_decimal(state.iommu_group).as_str()));
    }
    let ghost first = group_node(dev_vfio@, state.iommu_group);
    assert(paths(nodes@) =~= first);
    let devices = dev_vfio.join("devices");
    let ghost rest = crate::text::texts(cdevs@).map_values(
        |name: Seq<char>| dev_vfio@.push("devices"@).push(name),
    );
    assert(paths(nodes@) =~= first + rest.take(0));
    for i in 0..cdevs.len()
        invariant
            devices@ == dev_vfio@.push("devices"@),
            rest == crate::text::texts(cdevs@).map_values(
                |name: Seq<char>| dev_vfio@.push("devices"@).push(name),
            ),
            paths(nodes@) == first + rest.take(i as int),
    {
        let ghost so_far = nodes@;
        nodes.push(devices.join(cdevs[i].as_str()));
        assert(paths(nodes@) =~= paths(so_far).push(rest[i as int]));
        assert(rest.take(i + 1) =~= rest.take(i as int).push(rest[i as int]));
        assert(paths(nodes@) =~= first + rest.take(i + 1));
    }
    assert(rest.take(cdevs@.len() as int) =~= rest);
    nodes
}

/// The name of a process: its `comm` file without the white space around it.
pub open spec fn comm_text(comm: Option<String>) -> Seq<char> {
    match comm {
        Some(comm) => crate::text::trimmed(comm@),
        None => "?"@,
    }
}

pub fn comm(read: &Option<String>) -> (r: String)
    ensures
        r@ == comm_text(*read),
{
    match read {
        Some(text) => trim(text.as_str()),
        None => "?".to_owned(),
    }
}

/// One holder per link of the process that leads to one of `nodes`.
pub open spec fn held_by(
    pid: u32,
    comm: Seq<char>,
    targets: Seq<Seq<Seq<char>>>,
    nodes: Seq<Seq<Seq<char>>>,
) -> Seq<HolderText>
    decreases targets.len(),
{
    if targets.len() == 0 {
        Seq::empty()
    } else {
        let earlier = held_by(pid, comm, targets.drop_last(), nodes);
        if nodes.contains(targets.last()) {
            earlier.push(HolderText { pid, comm, node: targets.last() })
        } else {
            earlier
        }
    }
}

/// What an entry of `/proc` holds: nothing, unless it is a process.
pub open spec fn holds_of(process: Process, nodes: Seq<Seq<Seq<char>>>) -> Seq<HolderText> {
    match crate::numeral::pid_named(process.name@) {
        Some(pid) => held_by(pid, comm_text(process.comm), paths(process.targets@), nodes),
        None => Seq::empty(),
    }
}

/// What all of `/proc` holds, in the order in which it was read.
pub open spec fn all_holds(processes: Seq<Process>, nodes: Seq<Seq<Seq<char>>>) -> Seq<HolderText>
    decreases processes.len(),
{
    if processes.len() == 0 {
        Seq::empty()
    } else {
        all_holds(processes.drop_last(), nodes) + holds_of(processes.last(), nodes)
    }
}

/// By process id, and by node within one.
pub open spec fn holder_le(a: HolderText, b: HolderText) -> bool {
    a.pid < b.pid || (a.pid == b.pid && path_le(a.node, b.node))
}

/// The order of holders.
pub open spec fn holder_rank() -> spec_fn(HolderText, HolderText) -> bool {
    |a: HolderText, b: HolderText| holder_le(a, b)
}

/// Who holds a device that is held through `nodes`.
pub open spec fn holders_of(processes: Seq<Process>, nodes: Seq<Seq<Seq<char>>>) -> Seq<
    HolderText,
> {
    crate::sorting::without_repeats(
        crate::sorting::arranged(all_holds(processes, nodes), holder_rank()),
    )
}

pub open spec fn holder_texts(v: Seq<Holder>) -> Seq<HolderText> {
    v.map_values(|holder: Holder| holder@)
}

fn is_node(nodes: &Vec<NodePath>, target: &NodePath) -> (r: bool)
    ensures
        r == paths(nodes@).contains(target@),
{
    for i in 0..nodes.len()
        invariant
            forall|j: int| 0 <= j < i ==> paths(nodes@)[j] != target@,
    {
        if nodes[i].is(target) {
            assert(paths(nodes@)[i as int] == target@);
            return true;
        }
    }
    false
}

fn find_holds(nodes: &Vec<NodePath>, process: &Process) -> (r: Vec<Holder>)
    ensures
        holder_texts(r@) == holds_of(*process, paths(nodes@)),
{
    let mut found: Vec<Holder> = Vec::new();
    let pid: u32 = match parse_pid(process.name.as_str()) {
        Some(pid) => pid,
        None => {
            assert(holder_texts(found@) =~= Seq::<HolderText>::empty());
            return found;
        },
    };
    let ghost targets = paths(process.targets@);
    assert(holder_texts(found@) =~= held_by(
        pid,
        comm_text(process.comm),
        targets.take(0),
        paths(nodes@),
    ));
    for i in 0..process.targets.len()
        invariant
            targets == paths(process.targets@),
            holder_texts(found@) == held_by(
                pid,
                comm_text(process.comm),
                targets.take(i as int),
                paths(nodes@),
            ),
    {
        assert(targets.take(i + 1).drop_last() =~= targets.take(i as int));
        assert(targets.take(i + 1).last() == process.targets@[i as int]@);
        if is_node(nodes, &process.targets[i]) {
            let ghost so_far = found@;
            let holder = Holder {
                pid,
                comm: comm(&process.comm),
                node: process.targets[i].clone(),
            };
            found.push(holder);
            assert(holder_texts(found@) =~= holder_texts(so_far).push(holder@));
        }
    }
    assert(targets.take(targets.len() as int) =~= targets);
    found
}

impl Ranked for Holder {
    type Key = HolderText;

    open spec fn key(&self) -> HolderText {
        self@
    }

    open spec fn rank() -> spec_fn(HolderText, HolderText) -> bool {
        holder_rank()
    }

    fn comes_first(&self, other: &Holder) -> (r: bool) {
        self.pid < other.pid || (self.pid == other.pid && self.node.at_most(&other.node))
    }

    fn is_same(&self, other: &Holder) -> (r: bool) {
        self.pid == other.pid && same(self.comm.as_str(), other.comm.as_str()) && self.node.is(
            &other.node,
        )
    }

    fn copy(&self) -> (r: Holder) {
        self.clone()
    }
}

/// The processes that hold the device open, by process id.
///
/// `cdevs` are the character devices that the device has, and `processes` the
/// entries of `/proc`. Unreadable entries are no evidence: the caller is root,
/// so one it cannot see is one that exited mid-scan.
pub fn holders(
    dev_vfio: &NodePath,
    state: &DeviceState,
    cdevs: &Vec<String>,
    processes: &Vec<Process>,
) -> (r: Vec<Holder>)
    ensures
        holder_texts(r@) == holders_of(
            processes@,
            nodes_of(dev_vfio@, state.iommu_group, crate::text::texts(cdevs@)),
        ),
{
    let nodes = vfio_nodes(dev_vfio, state, cdevs);
    let ghost wanted = paths(nodes@);
    let mut found: Vec<Holder> = Vec::new();
    assert(holder_texts(found@) =~= all_holds(processes@.take(0), wanted));
    for i in 0..processes.len()
        invariant
            wanted == paths(nodes@),
            holder_texts(found@) == all_holds(processes@.take(i as int), wanted),
    {
        assert(processes@.take(i + 1).drop_last() =~= processes@.take(i as int));
        let mut holds = find_holds(&nodes, &processes[i]);
        let ghost so_far = found@;
        let ghost more = holds@;
        found.append(&mut holds);
        assert(holder_texts(found@) =~= holder_texts(so_far) + holder_texts(more));
    }
    assert(processes@.take(processes@.len() as int) =~= processes@);
    let out = drop_repeats(&arrange(&found));
    assert(crate::sorting::keys(found@) =~= holder_texts(found@));
    assert(crate::sorting::keys(out@) =~= holder_texts(out@));
    out
}

proof fn lemma_path_le_total(a: Seq<Seq<char>>, b: Seq<Seq<char>>)
    ensures
        path_le(a, b) || path_le(b, a),
    decreases a.len(),
{
    if a.len() > 0 && b.len() > 0 {
        crate::order::lemma_text_le_total(a[0], b[0]);
        lemma_path_le_total(a.skip(1), b.skip(1));
    }
}

proof fn lemma_path_le_transitive(a: Seq<Seq<char>>, b: Seq<Seq<char>>, c: Seq<Seq<char>>)
    requires
        path_le(a, b),
        path_le(b, c),
    ensures
        path_le(a, c),
    decreases a.len(),
{
    if a.len() > 0 && b.len() > 0 && c.len() > 0 {
        if a[0] == b[0] && b[0] == c[0] {
            lemma_path_le_transitive(a.skip(1), b.skip(1), c.skip(1));
        } else if a[0] != b[0] && b[0] != c[0] {
            crate::order::lemma_text_le_transitive(a[0], b[0], c[0]);
            if a[0] == c[0] {
                crate::order::lemma_text_le_antisymmetric(a[0], b[0]);
            }
        }
    }
}

proof fn lemma_holder_rank()
    ensures
        crate::sorting::is_ranking(holder_rank()),
{
    let rank = holder_rank();
    assert forall|a: HolderText, b: HolderText| #[trigger] rank(a, b) || rank(b, a) by {
        lemma_path_le_total(a.node, b.node);
    }
    assert forall|a: HolderText, b: HolderText, c: HolderText| #[trigger]
        rank(a, b) && #[trigger] rank(b, c) implies rank(a, c) by {
        if a.pid == b.pid && b.pid == c.pid {
            lemma_path_le_transitive(a.node, b.node, c.node);
        }
    }
}

/// The holders are in order.
pub open spec fn in_order(list: Seq<HolderText>) -> bool {
    forall|i: int, j: int|
        0 <= i < j < list.len() ==> holder_le(#[trigger] list[i], #[trigger] list[j])
}

/// What is told is what was found: everyone who holds the device, nobody else,
/// by process id and node, and nobody twice in a row.
pub proof fn law_every_holder_is_told(processes: Seq<Process>, nodes: Seq<Seq<Seq<char>>>)
    ensures
        forall|holder: HolderText| #[trigger]
            holders_of(processes, nodes).contains(holder) <==> all_holds(processes, nodes).contains(
                holder,
            ),
        in_order(holders_of(processes, nodes)),
        forall|i: int|
            0 < i < holders_of(processes, nodes).len() ==> #[trigger] holders_of(
                processes,
                nodes,
            )[i] != holders_of(processes, nodes)[i - 1],
{
    let found = all_holds(processes, nodes);
    let told = holders_of(processes, nodes);
    lemma_holder_rank();
    crate::sorting::lemma_arranged(found, holder_rank());
    crate::sorting::lemma_without_repeats(
        crate::sorting::arranged(found, holder_rank()),
        holder_rank(),
    );
    assert forall|i: int, j: int| 0 <= i < j < told.len() implies holder_le(
        #[trigger] told[i],
        #[trigger] told[j],
    ) by {
        assert(holder_rank()(told[i], told[j]));
    }
}

/// The process names a pid, and its link leads to one of the nodes.
pub open spec fn has_open(process: Process, link: int, nodes: Seq<Seq<Seq<char>>>) -> bool {
    &&& crate::numeral::pid_named(process.name@) is Some
    &&& 0 <= link < process.targets@.len()
    &&& nodes.contains(process.targets@[link]@)
}

proof fn lemma_held_by(
    pid: u32,
    comm: Seq<char>,
    targets: Seq<Seq<Seq<char>>>,
    nodes: Seq<Seq<Seq<char>>>,
)
    ensures
        held_by(pid, comm, targets, nodes).len() > 0 <==> exists|j: int|
            0 <= j < targets.len() && nodes.contains(#[trigger] targets[j]),
    decreases targets.len(),
{
    if targets.len() > 0 {
        let front = targets.drop_last();
        lemma_held_by(pid, comm, front, nodes);
        if exists|j: int| 0 <= j < targets.len() && nodes.contains(#[trigger] targets[j]) {
            let j = choose|j: int| 0 <= j < targets.len() && nodes.contains(#[trigger] targets[j]);
            if j < front.len() {
                assert(nodes.contains(front[j]));
            }
        }
        if exists|j: int| 0 <= j < front.len() && nodes.contains(#[trigger] front[j]) {
            let j = choose|j: int| 0 <= j < front.len() && nodes.contains(#[trigger] front[j]);
            assert(nodes.contains(targets[j]));
        }
        if nodes.contains(targets.last()) {
            assert(nodes.contains(targets[targets.len() - 1]));
        }
    }
}

/// A device counts as idle exactly when no process has one of its nodes open.
pub proof fn law_idle_means_that_nobody_has_it_open(
    processes: Seq<Process>,
    nodes: Seq<Seq<Seq<char>>>,
)
    ensures
        holders_of(processes, nodes).len() > 0 <==> exists|i: int, j: int|
            0 <= i < processes.len() && #[trigger] has_open(processes[i], j, nodes),
{
    let found = all_holds(processes, nodes);
    lemma_holder_rank();
    crate::sorting::lemma_arranged(found, holder_rank());
    crate::sorting::lemma_without_repeats(
        crate::sorting::arranged(found, holder_rank()),
        holder_rank(),
    );
    lemma_found_something(processes, nodes);
}

proof fn lemma_found_something(processes: Seq<Process>, nodes: Seq<Seq<Seq<char>>>)
    ensures
        all_holds(processes, nodes).len() > 0 <==> exists|i: int, j: int|
            0 <= i < processes.len() && #[trigger] has_open(processes[i], j, nodes),
    decreases processes.len(),
{
    if processes.len() > 0 {
        let front = processes.drop_last();
        let last = processes.last();
        lemma_found_something(front, nodes);
        if let Some(pid) = crate::numeral::pid_named(last.name@) {
            let targets = paths(last.targets@);
            lemma_held_by(pid, comm_text(last.comm), targets, nodes);
            if held_by(pid, comm_text(last.comm), targets, nodes).len() > 0 {
                let j = choose|j: int|
                    0 <= j < targets.len() && nodes.contains(#[trigger] targets[j]);
                assert(has_open(processes[processes.len() - 1], j, nodes));
            }
        }
        if exists|i: int, j: int|
            0 <= i < front.len() && #[trigger] has_open(front[i], j, nodes) {
            let (i, j) = choose|i: int, j: int|
                0 <= i < front.len() && #[trigger] has_open(front[i], j, nodes);
            assert(has_open(processes[i], j, nodes));
        }
        if exists|i: int, j: int|
            0 <= i < processes.len() && #[trigger] has_open(processes[i], j, nodes) {
            let (i, j) = choose|i: int, j: int|
                0 <= i < processes.len() && #[trigger] has_open(processes[i], j, nodes);
            if i < front.len() {
                assert(has_open(front[i], j, nodes));
            } else {
                assert(nodes.contains(paths(last.targets@)[j]));
            }
        }
    }
}

/// A device is watched at the node of its IOMMU group, whatever number that
/// has, at the node of each of its character devices, and nowhere else.
pub proof fn law_every_way_to_a_device_is_watched(
    dev_vfio: Seq<Seq<char>>,
    iommu_group: i64,
    cdevs: Seq<Seq<char>>,
)
    ensures
        iommu_group >= 0 ==> nodes_of(dev_vfio, iommu_group, cdevs).contains(
            dev_vfio.push(crate::numeral::decimal_text(iommu_group as int)),
        ),
        forall|c: int|
            0 <= c < cdevs.len() ==> nodes_of(dev_vfio, iommu_group, cdevs).contains(
                dev_vfio.push("devices"@).push(#[trigger] cdevs[c]),
            ),
        forall|node: Seq<Seq<char>>| #[trigger]
            nodes_of(dev_vfio, iommu_group, cdevs).contains(node) ==> {
                ||| iommu_group >= 0 && node == dev_vfio.push(
                    crate::numeral::decimal_text(iommu_group as int),
                )
                ||| exists|c: int|
                    0 <= c < cdevs.len() && node == dev_vfio.push("devices"@).push(
                        #[trigger] cdevs[c],
                    )
            },
{
    let nodes = nodes_of(dev_vfio, iommu_group, cdevs);
    let first = group_node(dev_vfio, iommu_group);
    if iommu_group >= 0 {
        assert(nodes[0] == dev_vfio.push(crate::numeral::decimal_text(iommu_group as int)));
    }
    assert forall|c: int| 0 <= c < cdevs.len() implies nodes.contains(
        dev_vfio.push("devices"@).push(#[trigger] cdevs[c]),
    ) by {
        assert(nodes[first.len() + c] == dev_vfio.push("devices"@).push(cdevs[c]));
    }
    assert forall|node: Seq<Seq<char>>| #[trigger] nodes.contains(node) implies {
        ||| iommu_group >= 0 && node == dev_vfio.push(
            crate::numeral::decimal_text(iommu_group as int),
        )
        ||| exists|c: int|
            0 <= c < cdevs.len() && node == dev_vfio.push("devices"@).push(#[trigger] cdevs[c])
    } by {
        let k = choose|k: int| 0 <= k < nodes.len() && nodes[k] == node;
        if k >= first.len() {
            let c = k - first.len();
            assert(node == dev_vfio.push("devices"@).push(cdevs[c]));
        }
    }
}

/// The process is the holder's, and its link leads to the holder's node.
spec fn is_hold(process: Process, link: int, holder: HolderText) -> bool {
    &&& crate::numeral::pid_named(process.name@) == Some(holder.pid)
    &&& 0 <= link < process.targets@.len()
    &&& process.targets@[link]@ == holder.node
    &&& match process.comm {
        Some(comm) => holder.comm == crate::text::trimmed(comm@),
        None => holder.comm == "?"@,
    }
}

proof fn lemma_held_by_contains(
    pid: u32,
    comm: Seq<char>,
    targets: Seq<Seq<Seq<char>>>,
    nodes: Seq<Seq<Seq<char>>>,
    holder: HolderText,
)
    ensures
        held_by(pid, comm, targets, nodes).contains(holder) <==> {
            &&& holder.pid == pid
            &&& holder.comm == comm
            &&& nodes.contains(holder.node)
            &&& targets.contains(holder.node)
        },
    decreases targets.len(),
{
    if targets.len() > 0 {
        let front = targets.drop_last();
        let earlier = held_by(pid, comm, front, nodes);
        let last = HolderText { pid, comm, node: targets.last() };
        lemma_held_by_contains(pid, comm, front, nodes, holder);
        assert(targets =~= front.push(targets.last()));
        lemma_pushed(front, targets.last(), holder.node);
        lemma_pushed(earlier, last, holder);
        if holder.pid == pid && holder.comm == comm && holder.node == targets.last() {
            assert(holder =~= last);
        }
    }
}

proof fn lemma_pushed<A>(s: Seq<A>, x: A, y: A)
    ensures
        s.push(x).contains(y) <==> s.contains(y) || y == x,
{
    if s.contains(y) {
        let k = choose|k: int| 0 <= k < s.len() && s[k] == y;
        assert(s.push(x)[k] == y);
    }
    assert(s.push(x)[s.len() as int] == x);
    if s.push(x).contains(y) {
        let k = choose|k: int| 0 <= k < s.push(x).len() && s.push(x)[k] == y;
        if k < s.len() {
            assert(s[k] == y);
        }
    }
}

proof fn lemma_holds_of(process: Process, nodes: Seq<Seq<Seq<char>>>, holder: HolderText)
    ensures
        holds_of(process, nodes).contains(holder) <==> nodes.contains(holder.node) && exists|
            j: int,
        | #[trigger]
            is_hold(process, j, holder),
{
    let targets = paths(process.targets@);
    if let Some(pid) = crate::numeral::pid_named(process.name@) {
        lemma_held_by_contains(pid, comm_text(process.comm), targets, nodes, holder);
        if targets.contains(holder.node) {
            let j = choose|j: int| 0 <= j < targets.len() && targets[j] == holder.node;
            if holder.pid == pid && holder.comm == comm_text(process.comm) {
                assert(is_hold(process, j, holder));
            }
        }
        if exists|j: int| #[trigger] is_hold(process, j, holder) {
            let j = choose|j: int| #[trigger] is_hold(process, j, holder);
            assert(targets[j] == holder.node);
        }
    }
}

proof fn lemma_all_holds(
    processes: Seq<Process>,
    nodes: Seq<Seq<Seq<char>>>,
    holder: HolderText,
)
    ensures
        all_holds(processes, nodes).contains(holder) <==> nodes.contains(holder.node) && exists|
            i: int,
            j: int,
        |
            0 <= i < processes.len() && #[trigger] is_hold(processes[i], j, holder),
    decreases processes.len(),
{
    if processes.len() > 0 {
        let front = processes.drop_last();
        let last = processes.last();
        let n = front.len() as int;
        let earlier = all_holds(front, nodes);
        let more = holds_of(last, nodes);
        let all = all_holds(processes, nodes);
        lemma_all_holds(front, nodes, holder);
        lemma_holds_of(last, nodes, holder);
        assert(processes[n] == last);
        if earlier.contains(holder) {
            let k = choose|k: int| 0 <= k < earlier.len() && earlier[k] == holder;
            assert(all[k] == holder);
            let (i, j) = choose|i: int, j: int|
                0 <= i < front.len() && #[trigger] is_hold(front[i], j, holder);
            assert(is_hold(processes[i], j, holder));
        }
        if more.contains(holder) {
            let k = choose|k: int| 0 <= k < more.len() && more[k] == holder;
            assert(all[earlier.len() + k] == holder);
            let j = choose|j: int| #[trigger] is_hold(last, j, holder);
            assert(is_hold(processes[n], j, holder));
        }
        if all.contains(holder) {
            let k = choose|k: int| 0 <= k < all.len() && all[k] == holder;
            if k < earlier.len() {
                assert(earlier[k] == holder);
            } else {
                assert(more[k - earlier.len()] == holder);
            }
        }
        if nodes.contains(holder.node) && exists|i: int, j: int|
            0 <= i < processes.len() && #[trigger] is_hold(processes[i], j, holder) {
            let (i, j) = choose|i: int, j: int|
                0 <= i < processes.len() && #[trigger] is_hold(processes[i], j, holder);
            if i < n {
                assert(is_hold(front[i], j, holder));
            } else {
                assert(is_hold(last, j, holder));
            }
        }
    }
}

/// A device is held by exactly the processes that have one of its nodes open.
/// They are told with their id, their trimmed name, and the node, those with
/// the smaller ids first.
pub proof fn law_who_has_a_node_open_holds_the_device(
    processes: Seq<Process>,
    nodes: Seq<Seq<Seq<char>>>,
    holder: HolderText,
)
    ensures
        holders_of(processes, nodes).contains(holder) <==> nodes.contains(holder.node) && exists|
            i: int,
            j: int,
        |
            {
                &&& 0 <= i < processes.len()
                &&& 0 <= j < processes[i].targets@.len()
                &&& (#[trigger] processes[i].targets@[j])@ == holder.node
                &&& crate::numeral::pid_named(processes[i].name@) == Some(holder.pid)
                &&& match processes[i].comm {
                    Some(comm) => holder.comm == crate::text::trimmed(comm@),
                    None => holder.comm == "?"@,
                }
            },
        forall|i: int, j: int|
            0 <= i < j < holders_of(processes, nodes).len() ==> (#[trigger] holders_of(
                processes,
                nodes,
            )[i]).pid <= (#[trigger] holders_of(processes, nodes)[j]).pid,
{
    law_every_holder_is_told(processes, nodes);
    lemma_all_holds(processes, nodes, holder);
    let told = holders_of(processes, nodes);
    if told.contains(holder) {
        let (i, j) = choose|i: int, j: int|
            0 <= i < processes.len() && #[trigger] is_hold(processes[i], j, holder);
        assert(processes[i].targets@[j]@ == holder.node);
    }
    if exists|i: int, j: int|
            {
                &&& 0 <= i < processes.len()
                &&& 0 <= j < processes[i].targets@.len()
                &&& (#[trigger] processes[i].targets@[j])@ == holder.node
                &&& crate::numeral::pid_named(processes[i].name@) == Some(holder.pid)
                &&& match processes[i].comm {
                    Some(comm) => holder.comm == crate::text::trimmed(comm@),
                    None => holder.comm == "?"@,
                }
            } {
        let (i, j) = choose|i: int, j: int|
            {
                &&& 0 <= i < processes.len()
                &&& 0 <= j < processes[i].targets@.len()
                &&& (#[trigger] processes[i].targets@[j])@ == holder.node
                &&& crate::numeral::pid_named(processes[i].name@) == Some(holder.pid)
                &&& match processes[i].comm {
                    Some(comm) => holder.comm == crate::text::trimmed(comm@),
                    None => holder.comm == "?"@,
                }
            };
        assert(is_hold(processes[i], j, holder));
    }
    assert forall|i: int, j: int| 0 <= i < j < told.len() implies (#[trigger] told[i]).pid <= (
    #[trigger] told[j]).pid by {
        assert(holder_le(told[i], told[j]));
    }
}

/// A process that has the node of the device's IOMMU group open, or that of one
/// of its character devices, makes the device held: it is told by its id.
pub proof fn law_a_vm_on_the_device_is_found(
    processes: Seq<Process>,
    i: int,
    j: int,
    pid: u32,
    dev_vfio: Seq<Seq<char>>,
    iommu_group: i64,
    cdevs: Seq<Seq<char>>,
    c: int,
)
    requires
        0 <= i < processes.len(),
        processes[i].name@ == crate::numeral::decimal_text(pid as int),
        0 <= j < processes[i].targets@.len(),
        (iommu_group >= 0 && processes[i].targets@[j]@ == dev_vfio.push(
            crate::numeral::decimal_text(iommu_group as int),
        )) || (0 <= c < cdevs.len() && processes[i].targets@[j]@ == dev_vfio.push("devices"@).push(
            cdevs[c],
        )),
    ensures
        holders_of(processes, nodes_of(dev_vfio, iommu_group, cdevs)).len() > 0,
        exists|k: int|
            {
                &&& 0 <= k < holders_of(processes, nodes_of(dev_vfio, iommu_group, cdevs)).len()
                &&& (#[trigger] holders_of(
                    processes,
                    nodes_of(dev_vfio, iommu_group, cdevs),
                )[k]).pid == pid
            },
{
    let nodes = nodes_of(dev_vfio, iommu_group, cdevs);
    let told = holders_of(processes, nodes);
    let holder = HolderText {
        pid,
        comm: comm_text(processes[i].comm),
        node: processes[i].targets@[j]@,
    };
    crate::numeral::law_a_pid_reads_back(pid);
    law_every_way_to_a_device_is_watched(dev_vfio, iommu_group, cdevs);
    assert(processes[i].targets@[j]@ == holder.node);
    law_who_has_a_node_open_holds_the_device(processes, nodes, holder);
    let k = choose|k: int| 0 <= k < told.len() && told[k] == holder;
    assert(told[k].pid == pid);
}

/// `a` and `b` agree before the component `k`, and there `a` ends or has the
/// smaller component.
spec fn branch_at(a: Seq<Seq<char>>, b: Seq<Seq<char>>, k: int) -> bool {
    &&& 0 <= k <= a.len()
    &&& k <= b.len()
    &&& forall|j: int| 0 <= j < k ==> #[trigger] a[j] == b[j]
    &&& k == a.len() || (k < b.len() && a[k] != b[k] && crate::order::text_le(a[k], b[k]))
}

/// Of two holders with one id the one with the smaller node comes first, and
/// nodes are compared component by component.
pub proof fn law_nodes_are_compared_by_component(a: HolderText, b: HolderText)
    ensures
        path_le(a.node, b.node) <==> exists|k: int|
            {
                &&& 0 <= k <= a.node.len()
                &&& k <= b.node.len()
                &&& #[trigger] a.node.take(k) == b.node.take(k)
                &&& k == a.node.len() || (k < b.node.len() && a.node[k] != b.node[k]
                    && crate::order::text_le(a.node[k], b.node[k]))
            },
        holder_le(a, b) <==> a.pid < b.pid || (a.pid == b.pid && path_le(a.node, b.node)),
{
    lemma_branch(a.node, b.node);
    if path_le(a.node, b.node) {
        let k = choose|k: int| #[trigger] branch_at(a.node, b.node, k);
        assert(a.node.take(k) =~= b.node.take(k));
    }
    if exists|k: int|
            {
                &&& 0 <= k <= a.node.len()
                &&& k <= b.node.len()
                &&& #[trigger] a.node.take(k) == b.node.take(k)
                &&& k == a.node.len() || (k < b.node.len() && a.node[k] != b.node[k]
                    && crate::order::text_le(a.node[k], b.node[k]))
            } {
        let k = choose|k: int|
            {
                &&& 0 <= k <= a.node.len()
                &&& k <= b.node.len()
                &&& #[trigger] a.node.take(k) == b.node.take(k)
                &&& k == a.node.len() || (k < b.node.len() && a.node[k] != b.node[k]
                    && crate::order::text_le(a.node[k], b.node[k]))
            };
        assert forall|j: int| 0 <= j < k implies #[trigger] a.node[j] == b.node[j] by {
            assert(a.node.take(k)[j] == b.node.take(k)[j]);
        }
        assert(branch_at(a.node, b.node, k));
    }
}

proof fn lemma_branch(a: Seq<Seq<char>>, b: Seq<Seq<char>>)
    ensures
        path_le(a, b) <==> exists|k: int| #[trigger] branch_at(a, b, k),
    decreases a.len(),
{
    if a.len() == 0 {
        assert(branch_at(a, b, 0));
    } else if b.len() > 0 {
        let s = a.skip(1);
        let t = b.skip(1);
        if a[0] == b[0] {
            lemma_branch(s, t);
            if path_le(s, t) {
                let k = choose|k: int| #[trigger] branch_at(s, t, k);
                assert forall|j: int| 0 <= j < k + 1 implies #[trigger] a[j] == b[j] by {
                    if j > 0 {
                        assert(s[j - 1] == t[j - 1]);
                    }
                }
                assert(branch_at(a, b, k + 1));
            }
            if exists|k: int| #[trigger] branch_at(a, b, k) {
                let k = choose|k: int| #[trigger] branch_at(a, b, k);
                assert forall|j: int| 0 <= j < k - 1 implies #[trigger] s[j] == t[j] by {
                    assert(a[j + 1] == b[j + 1]);
                }
                assert(branch_at(s, t, k - 1));
            }
        } else {
            if path_le(a, b) {
                assert(branch_at(a, b, 0));
            }
            if exists|k: int| #[trigger] branch_at(a, b, k) {
                let k = choose|k: int| #[trigger] branch_at(a, b, k);
                if k > 0 {
                    assert(a[0] == b[0]);
                }
            }
        }
    }
}

/// Paths and holders as text are what they hold, one for one.
pub proof fn law_holder_texts_are_the_holders(v: Seq<Holder>, nodes: Seq<NodePath>)
    ensures
        holder_texts(v).len() == v.len(),
        forall|i: int|
            0 <= i < v.len() ==> (#[trigger] holder_texts(v)[i]).pid == v[i].pid
                && holder_texts(v)[i].comm == v[i].comm@ && holder_texts(v)[i].node == v[i].node@,
        paths(nodes).len() == nodes.len(),
        forall|i: int|
            0 <= i < nodes.len() ==> #[trigger] paths(nodes)[i] == nodes[i].parts@.map_values(
                |part: String| part@,
            ),
{
    assert forall|i: int| 0 <= i < nodes.len() implies #[trigger] paths(nodes)[i]
        == nodes[i].parts@.map_values(|part: String| part@) by {
        assert(paths(nodes)[i] =~= nodes[i].parts@.map_values(|part: String| part@));
    }
}

/// The name of a process is its `comm` file trimmed, and a question mark where
/// that could not be read.
pub proof fn law_a_process_is_named_by_its_comm(comm: Option<String>)
    ensures
        comm is None ==> comm_text(comm) == "?"@,
        comm matches Some(text) ==> comm_text(comm) == crate::text::trimmed(text@),
{
}

/// Where processes and the VFIO nodes are looked for on a node.
pub proof fn law_the_kernel_has_its_usual_paths()
    ensures
        PROC@ == "/proc"@,
        DEV_VFIO@ == "/dev/vfio"@,
{
}

} // verus!
