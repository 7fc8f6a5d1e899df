use kata_device_provisioner::modules::{
    find_modprobe, modprobe, modprobe_candidates, modules_alias, needs_driver_override, persist,
    udev_rule, unpersist, Claim, FileAction, ModprobeExit, MODPROBE, MODULES_LOAD, UDEV_RULES,
};
use std::collections::BTreeMap;

type Files = BTreeMap<String, String>;

fn perform(files: &mut Files, actions: &[FileAction]) {
    for action in actions {
        match action {
            FileAction::Write { path, contents } => {
                files.insert(path.to_string(), contents.clone());
            }
            FileAction::Remove { path } => {
                files.remove(*path);
            }
        }
    }
}

fn persisted(claims: Vec<Claim>) -> (Files, Vec<String>) {
    let mut files = Files::new();
    let plan = persist(&claims);
    perform(&mut files, &plan.files);
    (files, plan.overridden)
}

fn strings(list: &[&str]) -> Vec<String> {
    list.iter().map(|text| text.to_string()).collect()
}

#[test]
fn finds_modprobe_wherever_the_distribution_put_it() {
    for path in ["/usr/sbin/modprobe", "/sbin/modprobe", "/usr/bin/modprobe", "/bin/modprobe"] {
        assert_eq!(find_modprobe("/host", &strings(&[path])).unwrap(), path);
        assert!(modprobe_candidates().contains(&path.to_string()));
    }
}

#[test]
fn prefers_usr_sbin_when_several_exist() {
    let files = strings(&["/bin/modprobe", "/usr/sbin/modprobe"]);
    assert_eq!(find_modprobe("/host", &files).unwrap(), "/usr/sbin/modprobe");
}

#[test]
fn refuses_a_host_with_no_kmod() {
    let err = find_modprobe("/host", &Vec::new()).unwrap_err().message;
    assert!(err.contains("install kmod"), "{err}");
    assert_eq!(err, "no modprobe under /host: install kmod on the node");
}

/// What stands below a host's root: paths, and whether each is a directory.
struct Host(Vec<(&'static str, bool)>);

impl Host {
    /// The candidates that are regular files on the host.
    fn files(&self) -> Vec<String> {
        let is_file = |path: &String| self.0.contains(&(path.as_str(), false));
        modprobe_candidates().into_iter().filter(is_file).collect()
    }

    /// Load a module with the host's modprobe, which succeeds where there is one.
    fn load(&self, module: &str) -> Result<(), String> {
        find_modprobe("/host", &self.files()).map_err(|refusal| refusal.message)?;
        let exit = ModprobeExit { success: true, status: String::new(), stderr: String::new() };
        modprobe(module, &exit).map_err(|refusal| refusal.message)
    }
}

#[test]
fn a_directory_named_modprobe_is_not_a_modprobe() {
    let host = Host(vec![("/sbin/modprobe", true)]);
    assert!(find_modprobe("/host", &host.files()).is_err());
    let host = Host(vec![("/usr/sbin/modprobe", true), ("/bin/modprobe", false)]);
    assert_eq!(find_modprobe("/host", &host.files()).unwrap(), "/bin/modprobe");
}

#[test]
fn only_a_candidate_is_a_modprobe() {
    assert!(find_modprobe("/host", &strings(&["/opt/bin/modprobe"])).is_err());
}

#[test]
fn loading_a_module_needs_a_modprobe_that_exists() {
    let err = Host(Vec::new()).load("vfio_pci").unwrap_err();
    assert!(err.contains("install kmod"), "{err}");
    Host(vec![("/sbin/modprobe", false)]).load("vfio_pci").unwrap();
}

#[test]
fn a_failed_modprobe_is_told_with_its_own_words() {
    let exit = |success| ModprobeExit {
        success,
        status: "exit status: 1".to_string(),
        stderr: "modprobe: FATAL: Module vfio_pci not found.\n".to_string(),
    };
    modprobe("vfio_pci", &exit(true)).unwrap();
    assert_eq!(
        modprobe("vfio_pci", &exit(false)).unwrap_err().message,
        "host modprobe failed for vfio_pci (exit status: 1): modprobe: FATAL: Module vfio_pci not \
         found."
    );
}

#[test]
fn the_alias_table_is_that_of_the_running_kernel() {
    assert_eq!(
        modules_alias("6.8.0-45-generic\n"),
        ["lib/modules", "6.8.0-45-generic", "modules.alias"]
    );
}

fn claim(address: &str, device: u16, module: &str) -> Claim {
    Claim {
        address: address.to_string(),
        vendor: 0x10de,
        device,
        module: module.to_string(),
        driver: module.to_string(),
    }
}

#[test]
fn persists_the_stack_and_the_ids_vfio_pci_should_claim() {
    let (files, overridden) = persisted(vec![
        claim("0000:65:00.0", 0x2330, "vfio_pci"),
        claim("0000:ca:00.0", 0x2330, "vfio_pci"),
        claim("0000:06:00.0", 0x22a3, "vfio_pci"),
    ]);
    assert!(overridden.is_empty());
    // One entry for vfio_pci, not one per spelling of it.
    assert_eq!(files[MODULES_LOAD], "vfio\nvfio_iommu_type1\nvfio_pci\n");
    // Two GPUs of the same model are one id, and the NVSwitch is there too.
    assert_eq!(files[MODPROBE], "options vfio-pci ids=10de:22a3,10de:2330\n");
}

#[test]
fn claims_a_variant_device_through_a_udev_rule() {
    let (files, overridden) = persisted(vec![
        claim("0009:01:00.0", 0x2342, "nvgrace_gpu_vfio_pci"),
        claim("0000:65:00.0", 0x2330, "vfio_pci"),
    ]);
    assert_eq!(overridden, ["0009:01:00.0"]);
    assert_eq!(
        files[MODPROBE], "options vfio-pci ids=10de:2330\n",
        "a variant device's ids would hand it to the wrong driver"
    );
    assert_eq!(
        files[MODULES_LOAD], "vfio\nvfio_iommu_type1\nnvgrace_gpu_vfio_pci\nvfio_pci\n",
        "the variant module has to be up for the override to land"
    );
    let rules = &files[UDEV_RULES];
    assert!(rules.contains(r#"ATTR{device}=="0x2342""#), "{rules}");
    assert!(rules.contains(r#"ATTR{driver_override}="nvgrace_gpu_vfio_pci""#), "{rules}");
    assert!(rules.contains("drivers_probe"), "{rules}");
    assert!(
        !rules.contains("0x2330"),
        "vfio-pci needs no rule, modprobe.d claims it: {rules}"
    );
}

#[test]
fn the_rule_is_the_one_that_was_validated() {
    assert_eq!(
        udev_rule(0x10de, 0x2342, "nvgrace_gpu_vfio_pci", "nvgrace_gpu_vfio_pci"),
        "ACTION==\"add\", SUBSYSTEM==\"pci\", ATTR{vendor}==\"0x10de\", \
         ATTR{device}==\"0x2342\", ATTR{driver_override}=\"nvgrace_gpu_vfio_pci\", \
         RUN{builtin}+=\"kmod load nvgrace_gpu_vfio_pci\", \
         RUN+=\"/bin/sh -c 'echo %k > /sys/bus/pci/drivers_probe'\"\n"
    );
}

#[test]
fn the_override_names_the_driver_and_the_load_names_the_module() {
    let rule = udev_rule(0x10de, 0x2342, "some_vfio_module", "some-vfio-driver");
    assert!(rule.contains(r#"ATTR{driver_override}="some-vfio-driver""#), "{rule}");
    assert!(rule.contains("kmod load some_vfio_module"), "{rule}");
}

#[test]
fn writes_one_rule_per_device_id() {
    let (files, overridden) = persisted(vec![
        claim("0009:01:00.0", 0x2342, "nvgrace_gpu_vfio_pci"),
        claim("0019:01:00.0", 0x2342, "nvgrace_gpu_vfio_pci"),
    ]);
    assert_eq!(files[UDEV_RULES].lines().count(), 1);
    assert_eq!(overridden, ["0009:01:00.0", "0019:01:00.0"]);
}

#[test]
fn names_no_vfio_pci_when_no_device_asks_for_it() {
    let (files, _) = persisted(vec![claim("0009:01:00.0", 0x2342, "nvgrace_gpu_vfio_pci")]);
    assert_eq!(files[MODULES_LOAD], "vfio\nvfio_iommu_type1\nnvgrace_gpu_vfio_pci\n");
    assert_eq!(files[MODPROBE], "", "an ids= line here would hand the GPU to the wrong driver");
}

#[test]
fn writes_no_rule_when_nothing_needs_an_override() {
    let (files, _) = persisted(vec![claim("0000:65:00.0", 0x2330, "vfio_pci")]);
    assert!(!files.contains_key(UDEV_RULES));
}

#[test]
fn uninstall_removes_both_files_and_is_idempotent() {
    let (mut files, _) = persisted(vec![claim("0000:65:00.0", 0x2330, "vfio_pci")]);
    perform(&mut files, &unpersist());
    perform(&mut files, &unpersist());
    assert!(!files.contains_key(MODULES_LOAD));
    assert!(!files.contains_key(MODPROBE));
}

#[test]
fn persisting_replaces_what_an_earlier_run_wrote_and_nothing_else() {
    let (mut files, _) = persisted(vec![claim("0009:01:00.0", 0x2342, "nvgrace_gpu_vfio_pci")]);
    files.insert("etc/modprobe.d/other.conf".to_string(), "blacklist nouveau\n".to_string());
    let plan = persist(&vec![claim("0000:65:00.0", 0x2330, "vfio_pci")]);
    perform(&mut files, &plan.files);
    let once = files.clone();
    perform(&mut files, &plan.files);
    assert_eq!(files, once);
    assert!(!files.contains_key(UDEV_RULES));
    assert_eq!(files["etc/modprobe.d/other.conf"], "blacklist nouveau\n");
    perform(&mut files, &unpersist());
    assert_eq!(files.len(), 1);
}

#[test]
fn a_module_is_named_once_in_whichever_spelling_came_first() {
    let (files, overridden) = persisted(vec![
        claim("a", 0x2330, "vfio-pci"),
        claim("b", 0x2331, "vfio_pci"),
        claim("c", 0x2332, "vfio-iommu-type1"),
    ]);
    assert_eq!(files[MODULES_LOAD], "vfio\nvfio_iommu_type1\nvfio-pci\n");
    assert_eq!(overridden, ["c"]);
}

#[test]
fn only_vfio_pci_itself_takes_ids() {
    assert!(!needs_driver_override("vfio_pci"));
    assert!(!needs_driver_override("vfio-pci"));
    assert!(needs_driver_override("nvgrace_gpu_vfio_pci"));
    assert!(needs_driver_override("vfio-pci-core"));
    assert!(needs_driver_override(""));
}

#[test]
fn ids_are_four_digits_wide() {
    let mut odd = claim("a", 0x000f, "vfio_pci");
    odd.vendor = 0x0001;
    let (files, _) = persisted(vec![odd]);
    assert_eq!(files[MODPROBE], "options vfio-pci ids=0001:000f\n");
}
