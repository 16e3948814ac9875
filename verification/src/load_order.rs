//! The request for a load order, and the passes that it asks for.

use vstd::prelude::*;
use vstd::string::*;
use dlv_list::VecList;
use crate::entry::{EntryView, NtLoadOrderEntry};
use crate::list::{list_entries, list_from_entries, list_valid};
use crate::steps::add_kernel_binaries::{add_kernel_binaries, kernel_binaries, optional_text};
use crate::steps::load_from_registry::{RegistryInfo, RegistryInfoView};
use crate::steps::passes;
use crate::steps::sort_by_hardcoded_groups::{hardcoded_group_keys, sort_by_hardcoded_groups};
use crate::steps::sort_by_hardcoded_service_lists::{
    hardcoded_service_list_keys, sort_by_hardcoded_service_lists,
};
use crate::steps::sort_by_tag_and_group::{ordered_by_tag_and_group, sort_by_tag_and_group};

verus! {

/// A request for a load order: which system to look at, and which passes to
/// run.
pub struct NtLoadOrder {
    system_root: Option<String>,
    kd_driver: Option<String>,
    cpu_vendor: Option<String>,
    sort_by_tag_and_group: bool,
    sort_by_hardcoded_groups: bool,
    sort_by_hardcoded_service_lists: bool,
    add_kernel_binaries: bool,
    add_imports: bool,
}

/// What the contracts see of a request.
pub struct LoadOrderView {
    /// The system root directory of the system to look at; none for the
    /// running system.
    pub system_root: Option<Seq<char>>,
    /// The KD driver that the system loads, such as "kdcom".
    pub kd_driver: Option<Seq<char>>,
    /// The vendor of the CPU that the system runs on, such as
    /// "AuthenticAMD".
    pub cpu_vendor: Option<Seq<char>>,
    pub sort_by_tag_and_group: bool,
    pub sort_by_hardcoded_groups: bool,
    pub sort_by_hardcoded_service_lists: bool,
    pub add_kernel_binaries: bool,
    pub add_imports: bool,
}

impl View for NtLoadOrder {
    type V = LoadOrderView;

    closed spec fn view(&self) -> LoadOrderView {
        LoadOrderView {
            system_root: optional_text(self.system_root),
            kd_driver: optional_text(self.kd_driver),
            cpu_vendor: optional_text(self.cpu_vendor),
            sort_by_tag_and_group: self.sort_by_tag_and_group,
            sort_by_hardcoded_groups: self.sort_by_hardcoded_groups,
            sort_by_hardcoded_service_lists: self.sort_by_hardcoded_service_lists,
            add_kernel_binaries: self.add_kernel_binaries,
            add_imports: self.add_imports,
        }
    }
}

/// The request that asks for everything of the running system: every pass
/// switched on, neither KD driver nor CPU vendor named.
pub open spec fn default_request() -> LoadOrderView {
    LoadOrderView {
        system_root: None,
        kd_driver: None,
        cpu_vendor: None,
        sort_by_tag_and_group: true,
        sort_by_hardcoded_groups: true,
        sort_by_hardcoded_service_lists: true,
        add_kernel_binaries: true,
        add_imports: true,
    }
}

/// The order that the passes of a request give to the services that the
/// registry lists: each pass that is switched on works on what the passes
/// before it left.
pub open spec fn arranged(request: LoadOrderView, info: RegistryInfoView) -> Seq<EntryView> {
    let by_tag = if request.sort_by_tag_and_group {
        ordered_by_tag_and_group(info.entries, info.groups, info.service_group_order)
    } else {
        info.entries
    };
    let by_group = if request.sort_by_hardcoded_groups {
        passes(by_tag, None, hardcoded_group_keys()).0
    } else {
        by_tag
    };
    let by_list = if request.sort_by_hardcoded_service_lists {
        passes(by_group, None, hardcoded_service_list_keys()).0
    } else {
        by_group
    };
    if request.add_kernel_binaries {
        kernel_binaries(request.kd_driver, request.cpu_vendor) + by_list
    } else {
        by_list
    }
}

impl NtLoadOrder {
    /// A request for the load order of the running system, with every pass
    /// switched on and neither KD driver nor CPU vendor named.
    pub fn new() -> (request: Self)
        ensures
            request@ == default_request(),
    {
        Self {
            system_root: None,
            kd_driver: None,
            cpu_vendor: None,
            sort_by_tag_and_group: true,
            sort_by_hardcoded_groups: true,
            sort_by_hardcoded_service_lists: true,
            add_kernel_binaries: true,
            add_imports: true,
        }
    }

    /// Switches the pass that adds the imports of the modules.
    pub fn add_imports(self, value: bool) -> (request: Self)
        ensures
            request@ == (LoadOrderView { add_imports: value, ..self@ }),
    {
        let mut request = self;
        request.add_imports = value;
        request
    }

    /// Switches the pass that adds the kernel binaries.
    pub fn add_kernel_binaries(self, value: bool) -> (request: Self)
        ensures
            request@ == (LoadOrderView { add_kernel_binaries: value, ..self@ }),
    {
        let mut request = self;
        request.add_kernel_binaries = value;
        request
    }

    /// Names the vendor of the CPU, or none.
    pub fn cpu_vendor(self, cpu_vendor: Option<String>) -> (request: Self)
        ensures
            request@ == (LoadOrderView { cpu_vendor: optional_text(cpu_vendor), ..self@ }),
    {
        let mut request = self;
        request.cpu_vendor = cpu_vendor;
        request
    }

    /// Names the KD driver, or none.
    pub fn kd_driver(self, kd_driver: Option<String>) -> (request: Self)
        ensures
            request@ == (LoadOrderView { kd_driver: optional_text(kd_driver), ..self@ }),
    {
        let mut request = self;
        request.kd_driver = kd_driver;
        request
    }

    /// Switches the pass that puts the hardcoded groups first.
    pub fn sort_by_hardcoded_groups(self, value: bool) -> (request: Self)
        ensures
            request@ == (LoadOrderView { sort_by_hardcoded_groups: value, ..self@ }),
    {
        let mut request = self;
        request.sort_by_hardcoded_groups = value;
        request
    }

    /// Switches the pass that puts the hardcoded service lists first.
    pub fn sort_by_hardcoded_service_lists(self, value: bool) -> (request: Self)
        ensures
            request@ == (LoadOrderView { sort_by_hardcoded_service_lists: value, ..self@ }),
    {
        let mut request = self;
        request.sort_by_hardcoded_service_lists = value;
        request
    }

    /// Switches the pass that orders the services by tag and group.
    pub fn sort_by_tag_and_group(self, value: bool) -> (request: Self)
        ensures
            request@ == (LoadOrderView { sort_by_tag_and_group: value, ..self@ }),
    {
        let mut request = self;
        request.sort_by_tag_and_group = value;
        request
    }

    /// Names the system root directory of the system to look at, or none
    /// for the running system.
    pub fn system_root(self, system_root: Option<String>) -> (request: Self)
        ensures
            request@ == (LoadOrderView { system_root: optional_text(system_root), ..self@ }),
    {
        let mut request = self;
        request.system_root = system_root;
        request
    }

    /// The system root directory that the request names.
    pub fn target_system_root(&self) -> (system_root: &Option<String>)
        ensures
            optional_text(*system_root) == self@.system_root,
    {
        &self.system_root
    }

    /// Whether the request asks for the imports of the modules.
    pub fn wants_imports(&self) -> (wanted: bool)
        ensures
            wanted == self@.add_imports,
    {
        self.add_imports
    }

    /// Runs the passes of the request, but for the imports, on the services
    /// that the registry lists.
    pub fn arrange(&self, registry_info: RegistryInfo) -> (entries: VecList<NtLoadOrderEntry>)
        requires
            registry_info.entries.len() + 4 < usize::MAX,
        ensures
            list_valid(entries),
            list_entries(entries) == arranged(self@, registry_info@),
    {
        let mut entries = if self.sort_by_tag_and_group {
            sort_by_tag_and_group(registry_info)
        } else {
            list_from_entries(registry_info.entries)
        };
        if self.sort_by_hardcoded_groups {
            sort_by_hardcoded_groups(&mut entries);
        }
        if self.sort_by_hardcoded_service_lists {
            sort_by_hardcoded_service_lists(&mut entries);
        }
        if self.add_kernel_binaries {
            add_kernel_binaries(&mut entries, &self.kd_driver, &self.cpu_vendor);
        }
        entries
    }
}

impl Default for NtLoadOrder {
    /// The request that `new` makes.
    fn default() -> (request: Self)
        ensures
            request@ == default_request(),
    {
        Self::new()
    }
}

impl Clone for NtLoadOrder {
    fn clone(&self) -> (request: Self)
        ensures
            request@ == self@,
    {
        Self {
            system_root: self.system_root.clone(),
            kd_driver: self.kd_driver.clone(),
            cpu_vendor: self.cpu_vendor.clone(),
            sort_by_tag_and_group: self.sort_by_tag_and_group,
            sort_by_hardcoded_groups: self.sort_by_hardcoded_groups,
            sort_by_hardcoded_service_lists: self.sort_by_hardcoded_service_lists,
            add_kernel_binaries: self.add_kernel_binaries,
            add_imports: self.add_imports,
        }
    }
}

} // verus!
