//! The host's kernel modules: which one a device needs, loading it with the
//! host's own modprobe as kata-deploy does, and configuring the node to do the
//! same at boot. Not libkmod: whether a `.ko.zst` loads would then depend on
//! how the *container's* libkmod was built.
use vstd::prelude::*;

use crate::numeral::hex;
use crate::order::sort_unique;
use crate::refusal::Refusal;
use crate::text::{holds, join, same, trim, underscored};

verus! {

/// `DRIVER_VFIO_PCI_TYPE` of pcilibs-rs: the name of the driver, `vfio-pci`.
#[verifier::external_body]
fn vfio_pci() -> (r: &'static str)
    ensures
        r@ == "vfio-pci"@,
{
    pcilibs_rs::DRIVER_VFIO_PCI_TYPE
}

/// Where a host may have its modprobe, the likeliest place first.
pub open spec fn modprobe_places() -> Seq<Seq<char>> {
    seq!["/usr/sbin/modprobe"@, "/sbin/modprobe"@, "/usr/bin/modprobe"@, "/bin/modprobe"@]
}

/// Where to look for the host's modprobe, as the paths look from its root.
pub fn modprobe_candidates() -> (r: Vec<String>)
    ensures
        crate::text::texts(r@) == modprobe_places(),
{
    let places = vec![
        "/usr/sbin/modprobe".to_owned(),
        "/sbin/modprobe".to_owned(),
        "/usr/bin/modprobe".to_owned(),
        "/bin/modprobe".to_owned(),
    ];
    assert(crate::text::texts(places@) =~= modprobe_places());
    places
}

/// The path of the running kernel's alias table below the host's root, part by
/// part. The release is that of `/proc/sys/kernel/osrelease` rather than of
/// `uname`, which in a container reports the image's idea of things.
pub fn modules_alias(osrelease: &str) -> (r: Vec<String>)
    ensures
        crate::text::texts(r@) == seq![
            "lib/modules"@,
            crate::text::trimmed(osrelease@),
            "modules.alias"@,
        ],
{
    let parts = vec!["lib/modules".to_owned(), trim(osrelease), "modules.alias".to_owned()];
    assert(crate::text::texts(parts@) =~= seq![
        "lib/modules"@,
        crate::text::trimmed(osrelease@),
        "modules.alias"@,
    ]);
    parts
}

pub open spec fn no_modprobe(host_root: Seq<char>) -> Seq<char> {
    "no modprobe under "@ + host_root + ": install kmod on the node"@
}

/// The host's modprobe: the first candidate that is among `files`, the
/// candidates that are regular files on the host. Returned as the path looks
/// *after* the chroot, not as it is mounted here.
pub fn find_modprobe(host_root: &str, files: &Vec<String>) -> (r: Result<String, Refusal>)
    ensures
        match r {
            Ok(path) => exists|i: int|
                {
                    &&& 0 <= i < modprobe_places().len()
                    &&& path@ == #[trigger] modprobe_places()[i]
                    &&& crate::text::texts(files@).contains(path@)
                    &&& forall|j: int|
                        0 <= j < i ==> !crate::text::texts(files@).contains(
                            #[trigger] modprobe_places()[j],
                        )
                },
            Err(refusal) => {
                &&& refusal.message@ == no_modprobe(host_root@)
                &&& forall|j: int|
                    0 <= j < modprobe_places().len() ==> !crate::text::texts(files@).contains(
                        #[trigger] modprobe_places()[j],
                    )
            },
        },
{
    let places = modprobe_candidates();
    for i in 0..places.len()
        invariant
            crate::text::texts(places@) == modprobe_places(),
            forall|j: int|
                0 <= j < i ==> !crate::text::texts(files@).contains(
                    #[trigger] modprobe_places()[j],
                ),
    {
        assert(modprobe_places()[i as int] == places@[i as int]@);
        if holds(files, places[i].as_str()) {
            return Ok(places[i].clone());
        }
    }
    assert(places@.len() == modprobe_places().len());
    let mut message = "no modprobe under ".to_owned();
    message.append(host_root);
    message.append(": install kmod on the node");
    Err(Refusal { message })
}

/// How a run of modprobe ended.
pub struct ModprobeExit {
    pub success: bool,
    /// The exit status, as it is written.
    pub status: String,
    pub stderr: String,
}

/// Whether modprobe loaded `module`.
pub fn modprobe(module: &str, exit: &ModprobeExit) -> (r: Result<(), Refusal>)
    ensures
        match r {
            Ok(_) => exit.success,
            Err(refusal) => !exit.success && refusal.message@ == "host modprobe failed for "@
                + module@ + " ("@ + exit.status@ + "): "@ + crate::text::trimmed(exit.stderr@),
        },
{
    if exit.success {
        return Ok(());
    }
    let mut message = "host modprobe failed for ".to_owned();
    message.append(module);
    message.append(" (");
    message.append(exit.status.as_str());
    message.append("): ");
    message.append(trim(exit.stderr.as_str()).as_str());
    Err(Refusal { message })
}

pub const MODULES_LOAD: &'static str = "etc/modules-load.d/kata-device-provisioner.conf";

pub const MODPROBE: &'static str = "etc/modprobe.d/kata-device-provisioner.conf";

pub const UDEV_RULES: &'static str = "etc/udev/rules.d/71-kata-device-provisioner.rules";

/// `driver_override` matches the driver name, modprobe the module name.
pub struct Claim {
    pub address: String,
    pub vendor: u16,
    pub device: u16,
    pub module: String,
    pub driver: String,
}

/// The module is none that `ids=` can be given to.
pub open spec fn is_variant(module: Seq<char>) -> bool {
    crate::text::underscored_text(module) != "vfio_pci"@
}

/// The variants register an `override_only` alias, so they match nothing until
/// something writes `driver_override`, which no modprobe file can do.
pub fn needs_driver_override(module: &str) -> (r: bool)
    ensures
        r == is_variant(module@),
{
    !same(underscored(module).as_str(), "vfio_pci")
}

pub open spec fn rule_text(vendor: u16, device: u16, module: Seq<char>, driver: Seq<char>) -> Seq<
    char,
> {
    "ACTION==\"add\", SUBSYSTEM==\"pci\", ATTR{vendor}==\"0x"@ + crate::numeral::hex_text(
        vendor as nat,
        4,
    ) + "\", ATTR{device}==\"0x"@ + crate::numeral::hex_text(device as nat, 4)
        + "\", ATTR{driver_override}=\""@ + driver + "\", RUN{builtin}+=\"kmod load "@ + module
        + "\", RUN+=\"/bin/sh -c 'echo %k > /sys/bus/pci/drivers_probe'\"\n"@
}

/// Keyed on the ids rather than an address, so the binding follows the card if
/// it moves slot.
///
/// A `driver_override` write neither loads the driver nor probes, and a module
/// already up when the event arrives attaches nothing, so the rule does both.
pub fn udev_rule(vendor: u16, device: u16, module: &str, driver: &str) -> (r: String)
    ensures
        r@ == rule_text(vendor, device, module@, driver@),
{
    let mut rule = "ACTION==\"add\", SUBSYSTEM==\"pci\", ATTR{vendor}==\"0x".to_owned();
    rule.append(hex(vendor as u64, 4).as_str());
    rule.append("\", ATTR{device}==\"0x");
    rule.append(hex(device as u64, 4).as_str());
    rule.append("\", ATTR{driver_override}=\"");
    rule.append(driver);
    rule.append("\", RUN{builtin}+=\"kmod load ");
    rule.append(module);
    rule.append("\", RUN+=\"/bin/sh -c 'echo %k > /sys/bus/pci/drivers_probe'\"\n");
    rule
}

/// The ids of a device as `vfio-pci` takes them.
pub open spec fn id_text(vendor: u16, device: u16) -> Seq<char> {
    crate::numeral::hex_text(vendor as nat, 4) + ":"@ + crate::numeral::hex_text(device as nat, 4)
}

fn id(vendor: u16, device: u16) -> (r: String)
    ensures
        r@ == id_text(vendor, device),
{
    let mut text = hex(vendor as u64, 4);
    text.append(":");
    text.append(hex(device as u64, 4).as_str());
    text
}

/// One of `modules` is `module`, in either spelling.
pub open spec fn names_module(modules: Seq<Seq<char>>, module: Seq<char>) -> bool {
    exists|i: int|
        0 <= i < modules.len() && crate::text::underscored_text(#[trigger] modules[i])
            == crate::text::underscored_text(module)
}

/// The stack every passthrough node needs up before anything can be claimed.
pub open spec fn vfio_stack() -> Seq<Seq<char>> {
    seq!["vfio"@, "vfio_iommu_type1"@]
}

/// The modules that the node loads at boot: the vfio stack, and then each
/// module that a claim names, where it is first named. A module named twice
/// under different punctuation is the same module.
pub open spec fn boot_modules(claims: Seq<Claim>) -> Seq<Seq<char>>
    decreases claims.len(),
{
    if claims.len() == 0 {
        vfio_stack()
    } else {
        let earlier = boot_modules(claims.drop_last());
        if names_module(earlier, claims.last().module@) {
            earlier
        } else {
            earlier.push(claims.last().module@)
        }
    }
}

/// The ids of the claims that `vfio-pci` itself carries.
pub open spec fn plain_ids(claims: Seq<Claim>) -> Seq<Seq<char>>
    decreases claims.len(),
{
    if claims.len() == 0 {
        Seq::empty()
    } else if is_variant(claims.last().module@) {
        plain_ids(claims.drop_last())
    } else {
        plain_ids(claims.drop_last()).push(id_text(claims.last().vendor, claims.last().device))
    }
}

/// The rules for the claims that need an override.
pub open spec fn override_rules(claims: Seq<Claim>) -> Seq<Seq<char>>
    decreases claims.len(),
{
    if claims.len() == 0 {
        Seq::empty()
    } else if is_variant(claims.last().module@) {
        override_rules(claims.drop_last()).push(
            rule_text(
                claims.last().vendor,
                claims.last().device,
                claims.last().module@,
                claims.last().driver@,
            ),
        )
    } else {
        override_rules(claims.drop_last())
    }
}

/// The devices that need an override.
pub open spec fn overridden(claims: Seq<Claim>) -> Seq<Seq<char>>
    decreases claims.len(),
{
    if claims.len() == 0 {
        Seq::empty()
    } else if is_variant(claims.last().module@) {
        overridden(claims.drop_last()).push(claims.last().address@)
    } else {
        overridden(claims.drop_last())
    }
}

/// Something done to a file below the host's root: it gets new contents, or it
/// goes.
#[derive(Debug)]
pub enum FileAction {
    Write { path: &'static str, contents: String },
    /// A file that is not there is removed already.
    Remove { path: &'static str },
}

/// A [`FileAction`] as text.
#[verifier::ext_equal]
pub struct FileText {
    pub path: Seq<char>,
    /// `None` where the file goes.
    pub contents: Option<Seq<char>>,
}

impl View for FileAction {
    type V = FileText;

    open spec fn view(&self) -> FileText {
        match self {
            FileAction::Write { path, contents } => FileText {
                path: path@,
                contents: Some(contents@),
            },
            FileAction::Remove { path } => FileText { path: path@, contents: None },
        }
    }
}

pub open spec fn file_texts(v: Seq<FileAction>) -> Seq<FileText> {
    v.map_values(|action: FileAction| action@)
}

/// `modprobe.d`: the ids that `vfio-pci` is to claim as it loads.
pub open spec fn options_text(claims: Seq<Claim>) -> Seq<char> {
    if plain_ids(claims).len() == 0 {
        Seq::empty()
    } else {
        "options "@ + "vfio-pci"@ + " ids="@ + crate::text::joined(
            crate::order::sorted_unique(plain_ids(claims)),
            ","@,
        ) + "\n"@
    }
}

/// The rules file, where a claim needs a rule.
pub open spec fn rules_text(claims: Seq<Claim>) -> Option<Seq<char>> {
    if override_rules(claims).len() == 0 {
        None
    } else {
        Some(crate::text::joined(crate::order::sorted_unique(override_rules(claims)), ""@))
    }
}

/// What is done to the node's boot configuration for `claims`, in order.
pub open spec fn boot_files(claims: Seq<Claim>) -> Seq<FileText> {
    seq![
        FileText {
            path: MODULES_LOAD@,
            contents: Some(crate::text::joined(boot_modules(claims), "\n"@) + "\n"@),
        },
        FileText { path: MODPROBE@, contents: Some(options_text(claims)) },
        FileText { path: UDEV_RULES@, contents: rules_text(claims) },
    ]
}

/// The boot configuration to write, and the devices that a udev rule carries.
pub struct BootPlan {
    pub files: Vec<FileAction>,
    pub overridden: Vec<String>,
}

fn is_named(modules: &Vec<String>, module: &str) -> (r: bool)
    ensures
        r == names_module(crate::text::texts(modules@), module@),
{
    let wanted = underscored(module);
    for i in 0..modules.len()
        invariant
            wanted@ == crate::text::underscored_text(module@),
            forall|j: int|
                0 <= j < i ==> crate::text::underscored_text(
                    #[trigger] crate::text::texts(modules@)[j],
                ) != wanted@,
    {
        if same(underscored(modules[i].as_str()).as_str(), wanted.as_str()) {
            assert(crate::text::texts(modules@)[i as int] == modules@[i as int]@);
            return true;
        }
    }
    false
}

fn push_text(list: &mut Vec<String>, text: String)
    ensures
        crate::text::texts(final(list)@) == crate::text::texts(old(list)@).push(text@),
{
    let ghost before = list@;
    list.push(text);
    assert(crate::text::texts(list@) =~= crate::text::texts(before).push(text@));
}

/// Make the kernel redo at boot what binding did by hand: `modprobe.d` hands
/// `vfio-pci` its ids as it loads, before another driver has looked at them,
/// and a udev rule carries whatever needs `driver_override`. Nothing runs as a
/// service and nothing gates the kubelet.
pub fn persist(claims: &Vec<Claim>) -> (r: BootPlan)
    ensures
        file_texts(r.files@) == boot_files(claims@),
        crate::text::texts(r.overridden@) == overridden(claims@),
{
    let mut modules: Vec<String> = vec!["vfio".to_owned(), "vfio_iommu_type1".to_owned()];
    let mut ids: Vec<String> = Vec::new();
    let mut carried: Vec<String> = Vec::new();
    let mut rules: Vec<String> = Vec::new();
    assert(crate::text::texts(modules@) =~= boot_modules(claims@.take(0)));
    assert(crate::text::texts(ids@) =~= plain_ids(claims@.take(0)));
    assert(crate::text::texts(carried@) =~= overridden(claims@.take(0)));
    assert(crate::text::texts(rules@) =~= override_rules(claims@.take(0)));
    for i in 0..claims.len()
        invariant
            crate::text::texts(modules@) == boot_modules(claims@.take(i as int)),
            crate::text::texts(ids@) == plain_ids(claims@.take(i as int)),
            crate::text::texts(carried@) == overridden(claims@.take(i as int)),
            crate::text::texts(rules@) == override_rules(claims@.take(i as int)),
    {
        assert(claims@.take(i + 1).drop_last() =~= claims@.take(i as int));
        let claim = &claims[i];
        if !is_named(&modules, claim.module.as_str()) {
            push_text(&mut modules, claim.module.clone());
        }
        if needs_driver_override(claim.module.as_str()) {
            push_text(&mut carried, claim.address.clone());
            push_text(
                &mut rules,
                udev_rule(
                    claim.vendor,
                    claim.device,
                    claim.module.as_str(),
                    claim.driver.as_str(),
                ),
            );
        } else {
            push_text(&mut ids, id(claim.vendor, claim.device));
        }
    }
    assert(claims@.take(claims@.len() as int) =~= claims@);
    assert(crate::text::texts(ids@).len() == ids@.len());
    assert(crate::text::texts(rules@).len() == rules@.len());

    let mut listed = join(&modules, "\n");
    listed.append("\n");

    let mut options = String::new();
    if ids.len() > 0 {
        options.append("options ");
        options.append(vfio_pci());
        options.append(" ids=");
        options.append(join(&sort_unique(&ids), ",").as_str());
        options.append("\n");
    }
    assert(options@ =~= options_text(claims@));

    let rules_file = if rules.len() == 0 {
        FileAction::Remove { path: UDEV_RULES }
    } else {
        FileAction::Write { path: UDEV_RULES, contents: join(&sort_unique(&rules), "") }
    };
    let files = vec![
        FileAction::Write { path: MODULES_LOAD, contents: listed },
        FileAction::Write { path: MODPROBE, contents: options },
        rules_file,
    ];
    assert(file_texts(files@) =~= boot_files(claims@));
    BootPlan { files, overridden: carried }
}

/// What removing the boot configuration does.
pub open spec fn removals() -> Seq<FileText> {
    seq![
        FileText { path: MODULES_LOAD@, contents: None },
        FileText { path: MODPROBE@, contents: None },
        FileText { path: UDEV_RULES@, contents: None },
    ]
}

/// Remove the boot configuration.
pub fn unpersist() -> (r: Vec<FileAction>)
    ensures
        file_texts(r@) == removals(),
{
    let files = vec![
        FileAction::Remove { path: MODULES_LOAD },
        FileAction::Remove { path: MODPROBE },
        FileAction::Remove { path: UDEV_RULES },
    ];
    assert(file_texts(files@) =~= removals());
    files
}

/// The files below the host's root, by path, after `actions`.
pub open spec fn performed(
    files: Map<Seq<char>, Seq<char>>,
    actions: Seq<FileText>,
) -> Map<Seq<char>, Seq<char>>
    decreases actions.len(),
{
    if actions.len() == 0 {
        files
    } else {
        let earlier = performed(files, actions.drop_last());
        match actions.last().contents {
            Some(contents) => earlier.insert(actions.last().path, contents),
            None => earlier.remove(actions.last().path),
        }
    }
}

/// The path is one of the three that the boot configuration takes up.
pub open spec fn is_boot_file(path: Seq<char>) -> bool {
    path == MODULES_LOAD@ || path == MODPROBE@ || path == UDEV_RULES@
}

proof fn lemma_paths_differ()
    ensures
        MODULES_LOAD@ != MODPROBE@,
        MODULES_LOAD@ != UDEV_RULES@,
        MODPROBE@ != UDEV_RULES@,
{
    reveal_strlit("etc/modules-load.d/kata-device-provisioner.conf");
    reveal_strlit("etc/modprobe.d/kata-device-provisioner.conf");
    reveal_strlit("etc/udev/rules.d/71-kata-device-provisioner.rules");
    assert(MODULES_LOAD@[7] == 'u' && MODPROBE@[7] == 'p');
    assert(MODULES_LOAD@[4] == 'm' && MODPROBE@[4] == 'm' && UDEV_RULES@[4] == 'u');
}

/// Three actions on three files leave each file as its own action says, and
/// every other file as it was.
proof fn lemma_performed(
    files: Map<Seq<char>, Seq<char>>,
    actions: Seq<FileText>,
    path: Seq<char>,
)
    requires
        actions.len() == 3,
        actions[0].path == MODULES_LOAD@,
        actions[1].path == MODPROBE@,
        actions[2].path == UDEV_RULES@,
    ensures
        ({
            let after = performed(files, actions);
            let contents = if path == MODULES_LOAD@ {
                actions[0].contents
            } else if path == MODPROBE@ {
                actions[1].contents
            } else {
                actions[2].contents
            };
            if is_boot_file(path) {
                &&& after.contains_key(path) == contents is Some
                &&& contents matches Some(text) ==> after[path] == text
            } else {
                &&& after.contains_key(path) == files.contains_key(path)
                &&& after.contains_key(path) ==> after[path] == files[path]
            }
        }),
{
    lemma_paths_differ();
    reveal_with_fuel(performed, 4);
    let two = actions.drop_last();
    let one = two.drop_last();
    assert(two.last() == actions[1]);
    assert(one.last() == actions[0]);
    assert(one.drop_last().len() == 0);
}

/// Writing the boot configuration leaves nothing to what was there before, and
/// every other file alone.
pub proof fn law_the_boot_configuration_is_written_whole(
    files: Map<Seq<char>, Seq<char>>,
    claims: Seq<Claim>,
    path: Seq<char>,
)
    ensures
        ({
            let after = performed(files, boot_files(claims));
            &&& after.contains_pair(
                MODULES_LOAD@,
                crate::text::joined(boot_modules(claims), "\n"@) + "\n"@,
            )
            &&& after.contains_pair(MODPROBE@, options_text(claims))
            &&& after.contains_key(UDEV_RULES@) == rules_text(claims) is Some
            &&& rules_text(claims) matches Some(text) ==> after[UDEV_RULES@] == text
            &&& !is_boot_file(path) ==> after.contains_key(path) == files.contains_key(path)
            &&& !is_boot_file(path) && files.contains_key(path) ==> after[path] == files[path]
        }),
{
    lemma_paths_differ();
    lemma_performed(files, boot_files(claims), MODULES_LOAD@);
    lemma_performed(files, boot_files(claims), MODPROBE@);
    lemma_performed(files, boot_files(claims), UDEV_RULES@);
    lemma_performed(files, boot_files(claims), path);
}

/// Writing the same boot configuration twice is writing it once.
pub proof fn law_persisting_twice_is_persisting_once(
    files: Map<Seq<char>, Seq<char>>,
    claims: Seq<Claim>,
)
    ensures
        performed(performed(files, boot_files(claims)), boot_files(claims)) == performed(
            files,
            boot_files(claims),
        ),
{
    let once = performed(files, boot_files(claims));
    let twice = performed(once, boot_files(claims));
    assert forall|path: Seq<char>|
        #![trigger twice.contains_key(path)]
        twice.contains_key(path) == once.contains_key(path) && (twice.contains_key(path)
            ==> twice[path] == once[path]) by {
        lemma_performed(files, boot_files(claims), path);
        lemma_performed(once, boot_files(claims), path);
    }
    assert(twice =~= once);
}

/// Removing the boot configuration takes all of it away, whatever the claims
/// were, touches no other file, and may be done twice.
pub proof fn law_unpersisting_leaves_no_trace(
    files: Map<Seq<char>, Seq<char>>,
    claims: Seq<Claim>,
)
    ensures
        performed(performed(files, boot_files(claims)), removals()) == performed(
            files,
            removals(),
        ),
        performed(performed(files, removals()), removals()) == performed(files, removals()),
        performed(files, removals()) == files.remove(MODULES_LOAD@).remove(MODPROBE@).remove(
            UDEV_RULES@,
        ),
{
    let gone = performed(files, removals());
    let kept = performed(performed(files, boot_files(claims)), removals());
    let again = performed(gone, removals());
    assert forall|path: Seq<char>|
        #![trigger kept.contains_key(path)]
        #![trigger again.contains_key(path)]
        #![trigger gone.contains_key(path)]
        {
            &&& kept.contains_key(path) == gone.contains_key(path)
            &&& kept.contains_key(path) ==> kept[path] == gone[path]
            &&& again.contains_key(path) == gone.contains_key(path)
            &&& again.contains_key(path) ==> again[path] == gone[path]
            &&& gone.contains_key(path) == (files.contains_key(path) && !is_boot_file(path))
            &&& gone.contains_key(path) ==> gone[path] == files[path]
        } by {
        lemma_performed(files, boot_files(claims), path);
        lemma_performed(performed(files, boot_files(claims)), removals(), path);
        lemma_performed(files, removals(), path);
        lemma_performed(gone, removals(), path);
    }
    assert(kept =~= gone);
    assert(again =~= gone);
    assert(gone =~= files.remove(MODULES_LOAD@).remove(MODPROBE@).remove(UDEV_RULES@));
}

/// Every claimed device is carried over a boot: one that needs an override by
/// a udev rule of its own ids, module and driver, and any other by its ids in
/// `modprobe.d`. Its module is loaded either way.
pub proof fn law_every_claim_is_carried(claims: Seq<Claim>, i: int)
    requires
        0 <= i < claims.len(),
    ensures
        names_module(boot_modules(claims), claims[i].module@),
        is_variant(claims[i].module@) ==> {
            &&& crate::order::sorted_unique(override_rules(claims)).contains(
                rule_text(
                    claims[i].vendor,
                    claims[i].device,
                    claims[i].module@,
                    claims[i].driver@,
                ),
            )
            &&& overridden(claims).contains(claims[i].address@)
        },
        !is_variant(claims[i].module@) ==> crate::order::sorted_unique(
            plain_ids(claims),
        ).contains(id_text(claims[i].vendor, claims[i].device)),
{
    lemma_carried(claims, i);
    crate::order::lemma_sorted_unique(override_rules(claims));
    crate::order::lemma_sorted_unique(plain_ids(claims));
}

proof fn lemma_contains_still<A>(s: Seq<A>, x: A, y: A)
    requires
        s.contains(x),
    ensures
        s.push(y).contains(x),
{
    let k = choose|k: int| 0 <= k < s.len() && s[k] == x;
    assert(s.push(y)[k] == x);
}

proof fn lemma_contains_last<A>(s: Seq<A>, x: A)
    ensures
        s.push(x).contains(x),
{
    assert(s.push(x)[s.len() as int] == x);
}

proof fn lemma_carried(claims: Seq<Claim>, i: int)
    requires
        0 <= i < claims.len(),
    ensures
        names_module(boot_modules(claims), claims[i].module@),
        is_variant(claims[i].module@) ==> {
            &&& override_rules(claims).contains(
                rule_text(
                    claims[i].vendor,
                    claims[i].device,
                    claims[i].module@,
                    claims[i].driver@,
                ),
            )
            &&& overridden(claims).contains(claims[i].address@)
        },
        !is_variant(claims[i].module@) ==> plain_ids(claims).contains(
            id_text(claims[i].vendor, claims[i].device),
        ),
    decreases claims.len(),
{
    let front = claims.drop_last();
    let last = claims.last();
    let rule = rule_text(last.vendor, last.device, last.module@, last.driver@);
    let id = id_text(last.vendor, last.device);
    if i == claims.len() - 1 {
        lemma_contains_last(override_rules(front), rule);
        lemma_contains_last(overridden(front), last.address@);
        lemma_contains_last(plain_ids(front), id);
        if !names_module(boot_modules(front), last.module@) {
            let n = boot_modules(front).len() as int;
            assert(boot_modules(claims)[n] == last.module@);
        }
    } else {
        lemma_carried(front, i);
        assert(front[i] == claims[i]);
        let modules = boot_modules(front);
        let k = choose|k: int|
            0 <= k < modules.len() && crate::text::underscored_text(#[trigger] modules[k])
                == crate::text::underscored_text(claims[i].module@);
        assert(boot_modules(claims)[k] == modules[k]);
        if is_variant(claims[i].module@) {
            lemma_contains_still(
                override_rules(front),
                rule_text(
                    claims[i].vendor,
                    claims[i].device,
                    claims[i].module@,
                    claims[i].driver@,
                ),
                rule,
            );
            lemma_contains_still(overridden(front), claims[i].address@, last.address@);
        } else {
            lemma_contains_still(plain_ids(front), id_text(claims[i].vendor, claims[i].device), id);
        }
    }
}

/// `vfio-pci` is only ever given ids that a claim of its own has: those of a
/// device that needs a variant driver would hand it to the wrong one.
pub proof fn law_vfio_pci_gets_no_id_of_a_variant(claims: Seq<Claim>, id: Seq<char>)
    requires
        crate::order::sorted_unique(plain_ids(claims)).contains(id),
    ensures
        exists|i: int|
            {
                &&& 0 <= i < claims.len()
                &&& !is_variant(#[trigger] claims[i].module@)
                &&& id == id_text(claims[i].vendor, claims[i].device)
            },
{
    crate::order::lemma_sorted_unique(plain_ids(claims));
    lemma_plain_id(claims, id);
}

proof fn lemma_plain_id(claims: Seq<Claim>, id: Seq<char>)
    requires
        plain_ids(claims).contains(id),
    ensures
        exists|i: int|
            {
                &&& 0 <= i < claims.len()
                &&& !is_variant(#[trigger] claims[i].module@)
                &&& id == id_text(claims[i].vendor, claims[i].device)
            },
    decreases claims.len(),
{
    let front = claims.drop_last();
    let ids = plain_ids(claims);
    let k = choose|k: int| 0 <= k < ids.len() && ids[k] == id;
    if !is_variant(claims.last().module@) && k == ids.len() - 1 {
        assert(!is_variant(claims[claims.len() - 1].module@));
    } else {
        assert(plain_ids(front)[k] == id);
        lemma_plain_id(front, id);
        let i = choose|i: int|
            {
                &&& 0 <= i < front.len()
                &&& !is_variant(#[trigger] front[i].module@)
                &&& id == id_text(front[i].vendor, front[i].device)
            };
        assert(!is_variant(claims[i].module@));
    }
}

/// The ids are in order and so are the rules, and none stands there twice:
/// devices with the same ids share one entry, whatever their number.
pub proof fn law_no_entry_stands_twice(claims: Seq<Claim>)
    ensures
        crate::order::is_increasing(crate::order::sorted_unique(plain_ids(claims))),
        crate::order::is_increasing(crate::order::sorted_unique(override_rules(claims))),
{
    crate::order::lemma_sorted_unique(override_rules(claims));
    crate::order::lemma_sorted_unique(plain_ids(claims));
}

/// No module is loaded under two spellings, and the vfio stack comes first.
pub proof fn law_modules_are_named_once(claims: Seq<Claim>)
    ensures
        boot_modules(claims).len() >= 2,
        boot_modules(claims).take(2) == vfio_stack(),
        forall|i: int, j: int|
            0 <= i < j < boot_modules(claims).len() ==> crate::text::underscored_text(
                #[trigger] boot_modules(claims)[i],
            ) != crate::text::underscored_text(#[trigger] boot_modules(claims)[j]),
    decreases claims.len(),
{
    if claims.len() == 0 {
        reveal_strlit("vfio");
        reveal_strlit("vfio_iommu_type1");
        assert(boot_modules(claims).take(2) =~= vfio_stack());
        assert(crate::text::underscored_text("vfio"@).len() == 4);
        assert(crate::text::underscored_text("vfio_iommu_type1"@).len() == 16);
    } else {
        let front = claims.drop_last();
        law_modules_are_named_once(front);
        let earlier = boot_modules(front);
        let all = boot_modules(claims);
        assert(all.take(2) =~= earlier.take(2));
        assert forall|i: int, j: int| 0 <= i < j < all.len() implies crate::text::underscored_text(
            #[trigger] all[i],
        ) != crate::text::underscored_text(#[trigger] all[j]) by {
            assert(all[i] == earlier[i]);
            if j < earlier.len() {
                assert(all[j] == earlier[j]);
            }
        }
    }
}

/// The two claims are written alike.
pub open spec fn same_claim(a: Claim, b: Claim) -> bool {
    &&& a.address@ == b.address@
    &&& a.vendor == b.vendor
    &&& a.device == b.device
    &&& a.module@ == b.module@
    &&& a.driver@ == b.driver@
}

proof fn lemma_same_claims(a: Seq<Claim>, b: Seq<Claim>)
    requires
        a.len() == b.len(),
        forall|i: int| 0 <= i < a.len() ==> same_claim(#[trigger] a[i], b[i]),
    ensures
        boot_modules(a) == boot_modules(b),
        plain_ids(a) == plain_ids(b),
        override_rules(a) == override_rules(b),
        overridden(a) == overridden(b),
    decreases a.len(),
{
    if a.len() > 0 {
        assert forall|i: int| 0 <= i < a.drop_last().len() implies same_claim(
            #[trigger] a.drop_last()[i],
            b.drop_last()[i],
        ) by {
            assert(same_claim(a[i], b[i]));
        }
        lemma_same_claims(a.drop_last(), b.drop_last());
        assert(same_claim(a[a.len() - 1], b[b.len() - 1]));
    }
}

/// Claims that are written alike make the same boot configuration.
pub proof fn law_the_claims_decide_the_boot_configuration(a: Seq<Claim>, b: Seq<Claim>)
    requires
        a.len() == b.len(),
        forall|i: int| 0 <= i < a.len() ==> same_claim(#[trigger] a[i], b[i]),
    ensures
        boot_files(a) == boot_files(b),
        overridden(a) == overridden(b),
{
    lemma_same_claims(a, b);
}

/// The plain module has two spellings, and every other module is a variant.
pub proof fn law_plain_has_two_spellings(module: Seq<char>)
    ensures
        is_variant(module) <==> module != "vfio_pci"@ && module != "vfio-pci"@,
{
    reveal_strlit("vfio_pci");
    reveal_strlit("vfio-pci");
    let plain = "vfio_pci"@;
    let dashed = "vfio-pci"@;
    let name = crate::text::underscored_text(module);
    assert(crate::text::underscored_text(plain) =~= plain);
    assert(crate::text::underscored_text(dashed) =~= plain);
    if !is_variant(module) {
        assert(module.len() == 8);
        assert forall|i: int| 0 <= i < 8 && i != 4 implies #[trigger] module[i] == plain[i] by {
            assert(name[i] == plain[i]);
        }
        assert(name[4] == '_');
        if module[4] == '_' {
            assert(module =~= plain);
        } else {
            assert(module =~= dashed);
        }
    }
}

/// Every claimed module is loaded at boot: the list has one that is the same but
/// for dashes and underscores. It begins with the vfio stack, and whatever else
/// stands in it is a module that some claim names.
pub proof fn law_every_module_is_loaded_at_boot(claims: Seq<Claim>)
    ensures
        boot_modules(claims).len() >= 2,
        boot_modules(claims)[0] == "vfio"@,
        boot_modules(claims)[1] == "vfio_iommu_type1"@,
        forall|i: int|
            0 <= i < claims.len() ==> exists|k: int|
                0 <= k < boot_modules(claims).len() && crate::text::underscored_text(
                    #[trigger] boot_modules(claims)[k],
                ) == crate::text::underscored_text((#[trigger] claims[i]).module@),
        forall|k: int|
            2 <= k < boot_modules(claims).len() ==> exists|i: int|
                0 <= i < claims.len() && (#[trigger] claims[i]).module@
                    == #[trigger] boot_modules(claims)[k],
    decreases claims.len(),
{
    if claims.len() > 0 {
        let front = claims.drop_last();
        let earlier = boot_modules(front);
        let all = boot_modules(claims);
        law_every_module_is_loaded_at_boot(front);
        assert forall|i: int| 0 <= i < claims.len() implies exists|k: int|
            0 <= k < all.len() && crate::text::underscored_text(#[trigger] all[k])
                == crate::text::underscored_text((#[trigger] claims[i]).module@) by {
            if i < front.len() {
                assert(front[i] == claims[i]);
                let k = choose|k: int|
                    0 <= k < earlier.len() && crate::text::underscored_text(#[trigger] earlier[k])
                        == crate::text::underscored_text(front[i].module@);
                assert(all[k] == earlier[k]);
            } else if names_module(earlier, claims.last().module@) {
                let k = choose|k: int|
                    0 <= k < earlier.len() && crate::text::underscored_text(#[trigger] earlier[k])
                        == crate::text::underscored_text(claims.last().module@);
                assert(all[k] == earlier[k]);
            } else {
                assert(all[earlier.len() as int] == claims[i].module@);
            }
        }
        assert forall|k: int| 2 <= k < all.len() implies exists|i: int|
            0 <= i < claims.len() && (#[trigger] claims[i]).module@ == #[trigger] all[k] by {
            if k < earlier.len() {
                assert(all[k] == earlier[k]);
                let i = choose|i: int|
                    0 <= i < front.len() && (#[trigger] front[i]).module@ == earlier[k];
                assert(claims[i].module@ == all[k]);
            } else {
                assert(claims[claims.len() - 1].module@ == all[k]);
            }
        }
    }
}

/// The modules are loaded in the order in which claims first name them: more
/// claims only add to the end of the list.
pub proof fn law_more_claims_load_more_modules(claims: Seq<Claim>, more: Seq<Claim>)
    ensures
        boot_modules(claims + more).len() >= boot_modules(claims).len(),
        boot_modules(claims + more).take(boot_modules(claims).len() as int) == boot_modules(claims),
    decreases more.len(),
{
    let all = claims + more;
    if more.len() == 0 {
        assert(all =~= claims);
        assert(boot_modules(claims).take(boot_modules(claims).len() as int) =~= boot_modules(
            claims,
        ));
    } else {
        assert(all.drop_last() =~= claims + more.drop_last());
        law_more_claims_load_more_modules(claims, more.drop_last());
        let earlier = boot_modules(all.drop_last());
        assert(boot_modules(all).take(boot_modules(claims).len() as int) =~= earlier.take(
            boot_modules(claims).len() as int,
        ));
    }
}

/// A claim is carried by `vfio-pci` or by a rule, never by both: by its ids where
/// its module is the plain one, and by a rule of its ids, module and driver where
/// it is any other. The claims are gone through one by one.
pub proof fn law_a_claim_is_carried_one_way(a: Seq<Claim>, b: Seq<Claim>, claim: Claim)
    ensures
        plain_ids(a + b) == plain_ids(a) + plain_ids(b),
        override_rules(a + b) == override_rules(a) + override_rules(b),
        overridden(a + b) == overridden(a) + overridden(b),
        claim.module@ == "vfio_pci"@ || claim.module@ == "vfio-pci"@ ==> {
            &&& plain_ids(seq![claim]) == seq![
                crate::numeral::hex_text(claim.vendor as nat, 4) + ":"@ + crate::numeral::hex_text(
                    claim.device as nat,
                    4,
                ),
            ]
            &&& override_rules(seq![claim]).len() == 0
            &&& overridden(seq![claim]).len() == 0
        },
        claim.module@ != "vfio_pci"@ && claim.module@ != "vfio-pci"@ ==> {
            &&& plain_ids(seq![claim]).len() == 0
            &&& override_rules(seq![claim]) == seq![
                "ACTION==\"add\", SUBSYSTEM==\"pci\", ATTR{vendor}==\"0x"@
                    + crate::numeral::hex_text(claim.vendor as nat, 4)
                    + "\", ATTR{device}==\"0x"@ + crate::numeral::hex_text(
                    claim.device as nat,
                    4,
                ) + "\", ATTR{driver_override}=\""@ + claim.driver@
                    + "\", RUN{builtin}+=\"kmod load "@ + claim.module@
                    + "\", RUN+=\"/bin/sh -c 'echo %k > /sys/bus/pci/drivers_probe'\"\n"@,
            ]
            &&& overridden(seq![claim]) == seq![claim.address@]
        },
    decreases b.len(),
{
    law_plain_has_two_spellings(claim.module@);
    let one = seq![claim];
    assert(one.drop_last() =~= Seq::<Claim>::empty());
    reveal_with_fuel(plain_ids, 2);
    reveal_with_fuel(override_rules, 2);
    reveal_with_fuel(overridden, 2);
    if is_variant(claim.module@) {
        assert(override_rules(one) =~= seq![
            rule_text(claim.vendor, claim.device, claim.module@, claim.driver@),
        ]);
        assert(overridden(one) =~= seq![claim.address@]);
    } else {
        assert(plain_ids(one) =~= seq![id_text(claim.vendor, claim.device)]);
    }
    if b.len() == 0 {
        assert(a + b =~= a);
        assert(plain_ids(a + b) =~= plain_ids(a) + plain_ids(b));
        assert(override_rules(a + b) =~= override_rules(a) + override_rules(b));
        assert(overridden(a + b) =~= overridden(a) + overridden(b));
    } else {
        assert((a + b).drop_last() =~= a + b.drop_last());
        law_a_claim_is_carried_one_way(a, b.drop_last(), claim);
        assert(plain_ids(a + b) =~= plain_ids(a) + plain_ids(b));
        assert(override_rules(a + b) =~= override_rules(a) + override_rules(b));
        assert(overridden(a + b) =~= overridden(a) + overridden(b));
    }
}

/// What stands in the three files: a module to a line, the ids of the plain
/// claims sorted and once each as the option of `vfio-pci`, or nothing where there
/// are none, and the rules sorted and once each. Without a rule there is no file
/// of them.
pub proof fn law_the_boot_configuration_says(claims: Seq<Claim>)
    ensures
        boot_files(claims).len() == 3,
        boot_files(claims)[0].path == "etc/modules-load.d/kata-device-provisioner.conf"@,
        boot_files(claims)[1].path == "etc/modprobe.d/kata-device-provisioner.conf"@,
        boot_files(claims)[2].path == "etc/udev/rules.d/71-kata-device-provisioner.rules"@,
        boot_files(claims)[0].contents == Some(
            crate::text::joined(boot_modules(claims), "\n"@) + "\n"@,
        ),
        plain_ids(claims).len() == 0 ==> boot_files(claims)[1].contents == Some(
            Seq::<char>::empty(),
        ),
        plain_ids(claims).len() > 0 ==> boot_files(claims)[1].contents == Some(
            "options vfio-pci ids="@ + crate::text::joined(
                crate::order::sorted_unique(plain_ids(claims)),
                ","@,
            ) + "\n"@,
        ),
        boot_files(claims)[2].contents is None <==> override_rules(claims).len() == 0,
        override_rules(claims).len() > 0 ==> boot_files(claims)[2].contents == Some(
            crate::text::joined(crate::order::sorted_unique(override_rules(claims)), ""@),
        ),
        removals().len() == 3,
        forall|i: int|
            0 <= i < 3 ==> (#[trigger] removals()[i]).contents is None && removals()[i].path
                == boot_files(claims)[i].path,
{
    reveal_strlit("options ");
    reveal_strlit("vfio-pci");
    reveal_strlit(" ids=");
    reveal_strlit("options vfio-pci ids=");
    assert("options "@ + "vfio-pci"@ + " ids="@ =~= "options vfio-pci ids="@);
}

/// The host's modprobe is looked for in four places, in this order.
pub proof fn law_modprobe_is_in_one_of_four_places()
    ensures
        modprobe_places().len() == 4,
        modprobe_places()[0] == "/usr/sbin/modprobe"@,
        modprobe_places()[1] == "/sbin/modprobe"@,
        modprobe_places()[2] == "/usr/bin/modprobe"@,
        modprobe_places()[3] == "/bin/modprobe"@,
{
}

/// A file is what the last action on it made it, and stays where there was none.
pub proof fn law_actions_are_performed_one_by_one(
    files: Map<Seq<char>, Seq<char>>,
    a: Seq<FileText>,
    b: Seq<FileText>,
    path: Seq<char>,
    contents: Seq<char>,
)
    ensures
        performed(files, a + b) == performed(performed(files, a), b),
        performed(files, seq![FileText { path, contents: Some(contents) }]) == files.insert(
            path,
            contents,
        ),
        performed(files, seq![FileText { path, contents: None }]) == files.remove(path),
    decreases b.len(),
{
    let write = seq![FileText { path, contents: Some(contents) }];
    let remove = seq![FileText { path, contents: None }];
    reveal_with_fuel(performed, 2);
    assert(write.drop_last() =~= Seq::<FileText>::empty());
    assert(remove.drop_last() =~= Seq::<FileText>::empty());
    if b.len() == 0 {
        assert(a + b =~= a);
    } else {
        assert((a + b).drop_last() =~= a + b.drop_last());
        law_actions_are_performed_one_by_one(files, a, b.drop_last(), path, contents);
    }
}

/// A file action as text has the action's path, and its contents where it writes.
pub proof fn law_file_texts_are_the_actions(
    v: Seq<FileAction>,
    i: int,
    path: &'static str,
    contents: String,
)
    requires
        0 <= i < v.len(),
    ensures
        file_texts(v).len() == v.len(),
        v[i] == (FileAction::Write { path, contents }) ==> file_texts(v)[i].path == path@
            && file_texts(v)[i].contents == Some(contents@),
        v[i] == (FileAction::Remove { path }) ==> file_texts(v)[i].path == path@ && file_texts(
            v,
        )[i].contents is None,
{
}

} // verus!
