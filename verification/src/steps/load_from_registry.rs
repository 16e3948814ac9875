//! What the registry says about boot-start services and their order.

use vstd::prelude::*;
use vstd::hash_map::StringHashMap;
use vstd::string::*;
use indexmap::IndexSet;
use crate::entry::{entry_views, EntryView, GroupView, NtLoadOrderEntry, NtLoadOrderEntryGroup};
use crate::registry::{
    found_key, found_value, key_at, RegistryError, RegistryHive, RegistryKeyNode, RegistryKeyValue,
};
use crate::tag_set::{group_tables, tag_set_insert, tag_set_items, tag_set_new};
use crate::text::{ascii_lower, decimal_digits, decimal_text, digit, digit_text, joined, string_views};

verus! {

/// The boot-start services and the two tables by which they are ordered.
pub struct RegistryInfo {
    /// The services, in the order in which the registry lists them.
    pub entries: Vec<NtLoadOrderEntry>,
    /// For each group with a tag order, under its lowercased name, the tags
    /// in load order.
    pub groups: StringHashMap<IndexSet<u32>>,
    /// The names of the groups, in load order.
    pub service_group_order: Vec<String>,
}

/// What the contracts see of a `RegistryInfo`.
pub struct RegistryInfoView {
    pub entries: Seq<EntryView>,
    pub groups: Map<Seq<char>, Seq<u32>>,
    pub service_group_order: Seq<Seq<char>>,
}

impl View for RegistryInfo {
    type V = RegistryInfoView;

    open spec fn view(&self) -> RegistryInfoView {
        RegistryInfoView {
            entries: entry_views(self.entries@),
            groups: group_tables(self.groups),
            service_group_order: string_views(self.service_group_order@),
        }
    }
}

/// Which part of the registry could not be read, and why.
#[derive(Clone, Copy, Debug, PartialEq, Eq, Structural)]
pub enum LoadError {
    /// The value "LastId" of the key "HardwareConfig".
    HardwareConfig(RegistryError),
    /// The value "List" of the key "ServiceGroupOrder".
    ServiceGroupOrder(RegistryError),
    /// The key "GroupOrderList", or one of its values.
    GroupOrderList(RegistryError),
    /// A value of the key "GroupOrderList" announces more tags than it
    /// holds, and ends in the middle of a tag.
    GroupOrderData,
    /// The key "Services".
    Services(RegistryError),
    /// The key of the boot file system among the services.
    BootFileSystem(RegistryError),
}

/// The name of the key of a control set: "ControlSet" and the number of
/// the set in three digits.
pub open spec fn control_set_name(control_set: u8) -> Seq<char> {
    "ControlSet"@ + digit(control_set as int / 100) + digit((control_set as int / 10) % 10)
        + digit(control_set as int % 10)
}

/// The number that the four bytes from the given place on hold, the least
/// significant byte first.
pub open spec fn le_u32(data: Seq<u8>, at: int) -> int {
    data[at] as int + 256 * (data[at + 1] as int) + 65536 * (data[at + 2] as int) + 16777216 * (
    data[at + 3] as int)
}

/// How many tags the data of a group's tag order lists: as many as the
/// number at its start announces, but no more than follow it. Data of fewer
/// than eight bytes lists none. Data that announces more tags than it holds
/// and ends in the middle of a tag lists nothing that could be told.
pub open spec fn listed_tag_count(data: Seq<u8>) -> Option<int> {
    if data.len() < 8 {
        Some(0)
    } else if le_u32(data, 0) <= (data.len() - 4) / 4 {
        Some(le_u32(data, 0))
    } else if (data.len() - 4) % 4 == 0 {
        Some((data.len() - 4) / 4)
    } else {
        None
    }
}

/// The first `count` tags that follow the number at the start of the data.
pub open spec fn listed_tags(data: Seq<u8>, count: int) -> Seq<u32> {
    Seq::new(count as nat, |i: int| le_u32(data, 4 + 4 * i) as u32)
}

/// The tags without those that occurred before.
pub open spec fn unique_tags(tags: Seq<u32>) -> Seq<u32>
    decreases tags.len(),
{
    if tags.len() == 0 {
        tags
    } else if unique_tags(tags.drop_last()).contains(tags.last()) {
        unique_tags(tags.drop_last())
    } else {
        unique_tags(tags.drop_last()).push(tags.last())
    }
}

/// The tag order that the data of a value of "GroupOrderList" holds.
pub open spec fn group_order(data: Seq<u8>) -> Option<Seq<u32>> {
    match listed_tag_count(data) {
        Some(count) => Some(unique_tags(listed_tags(data, count))),
        None => None,
    }
}

/// The tag orders that the values of "GroupOrderList" hold, each under the
/// lowercased name of its value; of two values of one name the later one
/// counts. The first value that cannot be read as a tag order fails them
/// all.
pub open spec fn group_orders(values: Seq<RegistryKeyValue>) -> Result<
    Map<Seq<char>, Seq<u32>>,
    LoadError,
>
    decreases values.len(),
{
    if values.len() == 0 {
        Ok(Map::empty())
    } else {
        match group_orders(values.drop_last()) {
            Err(error) => Err(error),
            Ok(orders) => match values.last().binary {
                None => Err(LoadError::GroupOrderList(RegistryError::WrongType)),
                Some(data) => match group_order(data@) {
                    None => Err(LoadError::GroupOrderData),
                    Some(tags) => Ok(orders.insert(ascii_lower(values.last().name@), tags)),
                },
            },
        }
    }
}

/// The string that the value of the given name holds, if there is such a
/// value and it holds a string.
pub open spec fn text_value(key: RegistryKeyNode, name: Seq<char>) -> Option<String> {
    match found_value(key.values@, name) {
        Some(value) => value.sz,
        None => None,
    }
}

/// The number that the value of the given name holds, if there is such a
/// value and it holds a number.
pub open spec fn number_value(key: RegistryKeyNode, name: Seq<char>) -> Option<u32> {
    match found_value(key.values@, name) {
        Some(value) => value.dword,
        None => None,
    }
}

/// The image path of a service: what its value "ImagePath" says, or, where
/// it has none, the driver of its name among the drivers.
pub open spec fn service_image_path(service: RegistryKeyNode) -> Seq<char> {
    match text_value(service, "ImagePath"@) {
        Some(image_path) => image_path@,
        None => "System32\\Drivers\\"@ + service.name@ + ".sys"@,
    }
}

/// The group of a service, by its value "Group".
pub open spec fn service_group(service: RegistryKeyNode) -> Option<GroupView> {
    match text_value(service, "Group"@) {
        Some(group) => Some(
            GroupView { display_name: group@, search_key: ascii_lower(group@) },
        ),
        None => None,
    }
}

/// The entry of a service.
pub open spec fn service_entry(service: RegistryKeyNode, reason: Seq<char>) -> EntryView {
    EntryView {
        name: service.name@,
        image_path: service_image_path(service),
        group: service_group(service),
        tag: number_value(service, "Tag"@),
        reason,
        is_kernel_binary: false,
    }
}

/// The start type that the hardware configuration sets for a service in
/// its subkey "StartOverride".
pub open spec fn start_override(service: RegistryKeyNode, hardware_config: Seq<char>) -> Option<u32> {
    match found_key(service.subkeys@, "StartOverride"@) {
        Some(overrides) => number_value(overrides, hardware_config),
        None => None,
    }
}

/// Why a service starts at boot, if it does: its start type is zero, by
/// the override of the hardware configuration where there is one, else by
/// its value "Start".
pub open spec fn boot_reason(service: RegistryKeyNode, hardware_config: Seq<char>) -> Option<
    Seq<char>,
> {
    match start_override(service, hardware_config) {
        Some(start) => if start == 0 {
            Some("Boot Driver via its value in the \"StartOverride\" subkey"@)
        } else {
            None
        },
        None => match number_value(service, "Start"@) {
            Some(start) => if start == 0 {
                Some("Boot Driver via its \"Start\" value"@)
            } else {
                None
            },
            None => None,
        },
    }
}

/// The entries of the services that start at boot, in the order of the
/// services.
pub open spec fn boot_entries(services: Seq<RegistryKeyNode>, hardware_config: Seq<char>) -> Seq<
    EntryView,
>
    decreases services.len(),
{
    if services.len() == 0 {
        Seq::empty()
    } else {
        match boot_reason(services.last(), hardware_config) {
            Some(reason) => boot_entries(services.drop_last(), hardware_config).push(
                service_entry(services.last(), reason),
            ),
            None => boot_entries(services.drop_last(), hardware_config),
        }
    }
}

/// The number that a value of a key of the hive holds.
pub open spec fn required_number(hive: RegistryHive, path: Seq<char>, name: Seq<char>) -> Result<
    u32,
    RegistryError,
> {
    match key_at(hive.root, path) {
        None => Err(RegistryError::KeyNotFound),
        Some(key) => match found_value(key.values@, name) {
            None => Err(RegistryError::ValueNotFound),
            Some(value) => match value.dword {
                None => Err(RegistryError::WrongType),
                Some(number) => Ok(number),
            },
        },
    }
}

/// The strings that a value of a key of the hive holds.
pub open spec fn required_texts(hive: RegistryHive, path: Seq<char>, name: Seq<char>) -> Result<
    Seq<Seq<char>>,
    RegistryError,
> {
    match key_at(hive.root, path) {
        None => Err(RegistryError::KeyNotFound),
        Some(key) => match found_value(key.values@, name) {
            None => Err(RegistryError::ValueNotFound),
            Some(value) => match value.multi_sz {
                None => Err(RegistryError::WrongType),
                Some(texts) => Ok(string_views(texts@)),
            },
        },
    }
}

/// What the hive says of the boot-start services of a control set: the
/// group order, the tag orders of the groups, and the entries of the
/// services that start at boot, behind them the entry of the boot file
/// system. What is looked at first and found missing decides the error.
pub open spec fn loaded(hive: RegistryHive, boot_file_system: Seq<char>, control_set: u8) -> Result<
    RegistryInfoView,
    LoadError,
> {
    match required_number(hive, "HardwareConfig"@, "LastId"@) {
        Err(error) => Err(LoadError::HardwareConfig(error)),
        Ok(last_id) => match required_texts(
            hive,
            control_set_name(control_set) + "\\Control\\ServiceGroupOrder"@,
            "List"@,
        ) {
            Err(error) => Err(LoadError::ServiceGroupOrder(error)),
            Ok(service_group_order) => match key_at(
                hive.root,
                control_set_name(control_set) + "\\Control\\GroupOrderList"@,
            ) {
                None => Err(LoadError::GroupOrderList(RegistryError::KeyNotFound)),
                Some(group_order_list) => match group_orders(group_order_list.values@) {
                    Err(error) => Err(error),
                    Ok(groups) => match key_at(
                        hive.root,
                        control_set_name(control_set) + "\\Services"@,
                    ) {
                        None => Err(LoadError::Services(RegistryError::KeyNotFound)),
                        Some(services) => match found_key(services.subkeys@, boot_file_system) {
                            None => Err(LoadError::BootFileSystem(RegistryError::KeyNotFound)),
                            Some(file_system) => Ok(
                                RegistryInfoView {
                                    entries: boot_entries(
                                        services.subkeys@,
                                        decimal_digits(last_id as nat),
                                    ).push(
                                        service_entry(file_system, "Boot File System Driver"@),
                                    ),
                                    groups,
                                    service_group_order,
                                },
                            ),
                        },
                    },
                },
            },
        },
    }
}

/// Writes the name of the key of a control set.
pub fn control_set_key_name(control_set: u8) -> (name: String)
    ensures
        name@ == control_set_name(control_set),
{
    let number = control_set as u32;
    let hundreds = joined("ControlSet", digit_text(number / 100));
    let tens = joined(hundreds.as_str(), digit_text((number / 10) % 10));
    joined(tens.as_str(), digit_text(number % 10))
}

/// Reads the number that four bytes hold, the least significant first.
fn le_u32_at(data: &Vec<u8>, at: usize) -> (number: u32)
    requires
        at + 4 <= data.len(),
    ensures
        number == le_u32(data@, at as int),
{
    let b0 = data[at] as u32;
    let b1 = data[at + 1] as u32;
    let b2 = data[at + 2] as u32;
    let b3 = data[at + 3] as u32;
    b0 + 256 * b1 + 65536 * b2 + 16777216 * b3
}

/// Reads the tag order of a group out of the data of its value.
pub fn get_group_set(data: &Vec<u8>) -> (set: Result<IndexSet<u32>, LoadError>)
    ensures
        match group_order(data@) {
            Some(tags) => set matches Ok(set) && tag_set_items(set) == tags,
            None => set matches Err(error) && error == LoadError::GroupOrderData,
        },
{
    let mut set = tag_set_new();
    if data.len() < 8 {
        proof {
            assert(listed_tags(data@, 0) =~= Seq::<u32>::empty());
        }
        return Ok(set);
    }
    let announced = le_u32_at(data, 0) as usize;
    let whole = (data.len() - 4) / 4;
    let count = if announced <= whole {
        announced
    } else if (data.len() - 4) % 4 == 0 {
        whole
    } else {
        return Err(LoadError::GroupOrderData);
    };
    let mut i: usize = 0;
    proof {
        assert(listed_tags(data@, 0) =~= Seq::<u32>::empty());
    }
    while i < count
        invariant
            i <= count <= (data.len() - 4) / 4,
            data.len() >= 8,
            tag_set_items(set) == unique_tags(listed_tags(data@, i as int)),
        decreases count - i,
    {
        let tag = le_u32_at(data, 4 + 4 * i);
        proof {
            let next = listed_tags(data@, i + 1);
            assert(next.drop_last() =~= listed_tags(data@, i as int));
            assert(next.last() == tag);
        }
        tag_set_insert(&mut set, tag);
        i += 1;
    }
    Ok(set)
}

/// Makes the entry of a service and puts it behind the others.
pub fn add_service(entries: &mut Vec<NtLoadOrderEntry>, service: &RegistryKeyNode, reason: String)
    ensures
        entry_views(final(entries)@) == entry_views(old(entries)@).push(
            service_entry(*service, reason@),
        ),
{
    let name = service.name.clone();
    let image_path = match service.value("ImagePath") {
        Ok(value) => match value.sz_data() {
            Ok(image_path) => Some(image_path.clone()),
            Err(_) => None,
        },
        Err(_) => None,
    };
    let image_path = match image_path {
        Some(image_path) => image_path,
        None => {
            let stem = joined("System32\\Drivers\\", service.name());
            joined(stem.as_str(), ".sys")
        },
    };
    let group = match service.value("Group") {
        Ok(value) => match value.sz_data() {
            Ok(display_name) => Some(
                NtLoadOrderEntryGroup {
                    display_name: display_name.clone(),
                    search_key: display_name.as_str().to_ascii_lowercase(),
                },
            ),
            Err(_) => None,
        },
        Err(_) => None,
    };
    let tag = match service.value("Tag") {
        Ok(value) => match value.dword_data() {
            Ok(tag) => Some(tag),
            Err(_) => None,
        },
        Err(_) => None,
    };
    let entry = NtLoadOrderEntry { name, image_path, group, tag, reason, is_kernel_binary: false };
    proof {
        assert(entry@ == service_entry(*service, reason@));
    }
    entries.push(entry);
    proof {
        assert(entry_views(entries@) =~= entry_views(old(entries)@).push(entry@));
    }
}

/// Tells why a service starts at boot, if it does.
pub fn boot_start_reason(service: &RegistryKeyNode, hardware_config: &str) -> (reason: Option<
    &'static str,
>)
    ensures
        match boot_reason(*service, hardware_config@) {
            Some(text) => reason matches Some(reason) && reason@ == text,
            None => reason is None,
        },
{
    let mut start_and_reason: Option<(u32, &'static str)> = None;
    match service.value("Start") {
        Ok(value) => match value.dword_data() {
            Ok(start) => {
                start_and_reason = Some((start, "Boot Driver via its \"Start\" value"));
            },
            Err(_) => {},
        },
        Err(_) => {},
    }
    match service.subkey("StartOverride") {
        Ok(overrides) => match overrides.value(hardware_config) {
            Ok(value) => match value.dword_data() {
                Ok(start) => {
                    start_and_reason = Some(
                        (start, "Boot Driver via its value in the \"StartOverride\" subkey"),
                    );
                },
                Err(_) => {},
            },
            Err(_) => {},
        },
        Err(_) => {},
    }
    match start_and_reason {
        Some((start, reason)) => if start == 0 {
            Some(reason)
        } else {
            None
        },
        None => None,
    }
}

/// Reads the tag orders of the groups out of the values of
/// "GroupOrderList".
pub fn load_group_orders(values: &Vec<RegistryKeyValue>) -> (groups: Result<
    StringHashMap<IndexSet<u32>>,
    LoadError,
>)
    ensures
        match group_orders(values@) {
            Ok(orders) => groups matches Ok(groups) && group_tables(groups) == orders,
            Err(failure) => groups matches Err(error) && error == failure,
        },
{
    let mut groups: StringHashMap<IndexSet<u32>> = StringHashMap::new();
    let mut i: usize = 0;
    proof {
        assert(values@.take(0) =~= Seq::empty());
        assert(group_tables(groups) =~= Map::empty());
    }
    while i < values.len()
        invariant
            i <= values.len(),
            group_orders(values@.take(i as int)) == Ok::<Map<Seq<char>, Seq<u32>>, LoadError>(
                group_tables(groups),
            ),
        decreases values.len() - i,
    {
        let value = &values[i];
        let ghost before = group_tables(groups);
        proof {
            assert(values@.take(i + 1).drop_last() =~= values@.take(i as int));
            assert(values@.take(i + 1).last() == values@[i as int]);
        }
        let data = match value.binary_data() {
            Ok(data) => data,
            Err(_) => {
                proof {
                    lemma_group_orders_fail(values@, i + 1);
                }
                return Err(LoadError::GroupOrderList(RegistryError::WrongType));
            },
        };
        let set = match get_group_set(data) {
            Ok(set) => set,
            Err(error) => {
                proof {
                    lemma_group_orders_fail(values@, i + 1);
                }
                return Err(error);
            },
        };
        let key = value.name.as_str().to_ascii_lowercase();
        groups.insert(key, set);
        proof {
            assert(group_tables(groups) =~= before.insert(key@, tag_set_items(set)));
        }
        i += 1;
    }
    proof {
        assert(values@.take(i as int) =~= values@);
    }
    Ok(groups)
}

/// Once the values up to some place fail, all of them do, in the same way.
proof fn lemma_group_orders_fail(values: Seq<RegistryKeyValue>, upto: int)
    requires
        0 <= upto <= values.len(),
        group_orders(values.take(upto)) is Err,
    ensures
        group_orders(values) == group_orders(values.take(upto)),
    decreases values.len() - upto,
{
    if upto < values.len() {
        assert(values.take(upto + 1).drop_last() =~= values.take(upto));
        lemma_group_orders_fail(values, upto + 1);
    } else {
        assert(values.take(upto) =~= values);
    }
}

/// Reads out of the hive what the bootloader goes by: the group order, the
/// tag orders of the groups, and the services that start at boot, with the
/// boot file system as the last of them.
pub fn load_from_registry(hive: &RegistryHive, boot_file_system: &str, control_set: u8) -> (info:
    Result<RegistryInfo, LoadError>)
    ensures
        match loaded(*hive, boot_file_system@, control_set) {
            Ok(found) => info matches Ok(info) && info@ == found,
            Err(failure) => info matches Err(error) && error == failure,
        },
{
    let control_set_key_name = control_set_key_name(control_set);
    let last_id = match hive.key_node("HardwareConfig") {
        Ok(key) => match key.value("LastId") {
            Ok(value) => match value.dword_data() {
                Ok(last_id) => last_id,
                Err(error) => {
                    return Err(LoadError::HardwareConfig(error));
                },
            },
            Err(error) => {
                return Err(LoadError::HardwareConfig(error));
            },
        },
        Err(error) => {
            return Err(LoadError::HardwareConfig(error));
        },
    };
    let hardware_config = decimal_text(last_id);
    let order_path = joined(control_set_key_name.as_str(), "\\Control\\ServiceGroupOrder");
    let listed = match hive.key_node(order_path.as_str()) {
        Ok(key) => match key.value("List") {
            Ok(value) => match value.multi_sz_data() {
                Ok(listed) => listed,
                Err(error) => {
                    return Err(LoadError::ServiceGroupOrder(error));
                },
            },
            Err(error) => {
                return Err(LoadError::ServiceGroupOrder(error));
            },
        },
        Err(error) => {
            return Err(LoadError::ServiceGroupOrder(error));
        },
    };
    let mut service_group_order: Vec<String> = Vec::new();
    let mut i: usize = 0;
    while i < listed.len()
        invariant
            i <= listed.len(),
            service_group_order@.len() == i,
            forall|j: int| 0 <= j < i ==> service_group_order@[j] == listed@[j],
        decreases listed.len() - i,
    {
        service_group_order.push(listed[i].clone());
        i += 1;
    }
    proof {
        assert(string_views(service_group_order@) =~= string_views(listed@));
    }
    let groups_path = joined(control_set_key_name.as_str(), "\\Control\\GroupOrderList");
    let groups = match hive.key_node(groups_path.as_str()) {
        Ok(key) => match load_group_orders(key.values()) {
            Ok(groups) => groups,
            Err(error) => {
                return Err(error);
            },
        },
        Err(error) => {
            return Err(LoadError::GroupOrderList(error));
        },
    };
    let services_path = joined(control_set_key_name.as_str(), "\\Services");
    let services = match hive.key_node(services_path.as_str()) {
        Ok(services) => services,
        Err(error) => {
            return Err(LoadError::Services(error));
        },
    };
    let mut entries: Vec<NtLoadOrderEntry> = Vec::new();
    let subkeys = services.subkeys();
    let mut i: usize = 0;
    proof {
        assert(subkeys@.take(0) =~= Seq::empty());
    }
    while i < subkeys.len()
        invariant
            i <= subkeys.len(),
            entry_views(entries@) == boot_entries(subkeys@.take(i as int), hardware_config@),
        decreases subkeys.len() - i,
    {
        let service = &subkeys[i];
        proof {
            assert(subkeys@.take(i + 1).drop_last() =~= subkeys@.take(i as int));
            assert(subkeys@.take(i + 1).last() == subkeys@[i as int]);
        }
        match boot_start_reason(service, hardware_config.as_str()) {
            Some(reason) => {
                add_service(&mut entries, service, String::from_str(reason));
            },
            None => {},
        }
        i += 1;
    }
    proof {
        assert(subkeys@.take(i as int) =~= subkeys@);
    }
    let file_system = match services.subkey(boot_file_system) {
        Ok(file_system) => file_system,
        Err(error) => {
            return Err(LoadError::BootFileSystem(error));
        },
    };
    add_service(&mut entries, file_system, String::from_str("Boot File System Driver"));
    Ok(RegistryInfo { entries, groups, service_group_order })
}

impl RegistryInfo {
    /// The given services and group order, and no tag order for any group.
    pub fn new(entries: Vec<NtLoadOrderEntry>, service_group_order: Vec<String>) -> (info: Self)
        ensures
            info@ == (RegistryInfoView {
                entries: entry_views(entries@),
                groups: Map::empty(),
                service_group_order: string_views(service_group_order@),
            }),
    {
        let groups: StringHashMap<IndexSet<u32>> = StringHashMap::new();
        proof {
            assert(group_tables(groups) =~= Map::empty());
        }
        RegistryInfo { entries, groups, service_group_order }
    }

    /// Gives a group its tag order: the tags in the given order, without
    /// those that occurred before. The group is named in any case.
    pub fn set_group_order(&mut self, group: &str, tags: &Vec<u32>)
        ensures
            final(self)@ == (RegistryInfoView {
                groups: old(self)@.groups.insert(ascii_lower(group@), unique_tags(tags@)),
                ..old(self)@
            }),
    {
        let mut set = tag_set_new();
        let mut i: usize = 0;
        proof {
            assert(tags@.take(0) =~= Seq::<u32>::empty());
        }
        while i < tags.len()
            invariant
                i <= tags.len(),
                tag_set_items(set) == unique_tags(tags@.take(i as int)),
            decreases tags.len() - i,
        {
            proof {
                assert(tags@.take(i + 1).drop_last() =~= tags@.take(i as int));
                assert(tags@.take(i + 1).last() == tags@[i as int]);
            }
            tag_set_insert(&mut set, tags[i]);
            i += 1;
        }
        proof {
            assert(tags@.take(i as int) =~= tags@);
        }
        let ghost before = group_tables(self.groups);
        let key = group.to_ascii_lowercase();
        self.groups.insert(key, set);
        proof {
            assert(group_tables(self.groups) =~= before.insert(key@, tag_set_items(set)));
        }
    }
}

} // verus!
