//! Adding the modules that the entries import, and the modules that those
//! import in turn.
//!
//! Reading an image and looking for a file are the caller's work. The
//! handler decides: it is told what the caller found and says what it needs
//! to know next, until every entry and every import has its place.

use vstd::prelude::*;
use vstd::hash_set::StringHashSet;
use vstd::string::*;
use crate::entry::{entry_views, EntryView, NtLoadOrderEntry};
use crate::image::{
    api_set_key, api_set_key_char, api_set_lookup, api_set_schema_loads, pe_import_names,
    ApiSetLookup, PeImports, IMAGE_DOS_HEADER_SIZE,
};
use dlv_list::VecList;
use crate::list::{lemma_no_duplicates_insert, list_entries, list_into_vec};
use crate::text::{ascii_lower, ends_with, has_prefix, has_suffix, joined, starts_with};

verus! {

/// Why the imports could not be added.
#[derive(Clone, Copy, Debug, PartialEq, Eq, Structural)]
pub enum ImportError {
    /// The API Set schema of the system could not be read or decoded.
    SchemaNotLoaded,
    /// An image could not be read or is not a 64-bit PE image.
    ImageNotRead,
    /// The name of an imported module could not be decoded.
    ImportNameNotRead,
    /// The redirection of an API Set could not be decoded.
    ApiSetNotRead,
    /// An imported module is neither among the drivers nor in System32.
    ImportNotFound,
    /// The handler was told something that it had not asked for.
    UnexpectedAnswer,
}

/// The system root directory, from which the paths of images are made.
pub struct PathHandler {
    pub system_root: String,
}

impl PathHandler {
    /// A path handler for the given system root directory.
    pub fn new(system_root: String) -> (handler: Self)
        ensures
            handler.system_root == system_root,
    {
        Self { system_root }
    }

    /// The path of an image, given relative to the system root.
    pub fn full_path_name(&self, image_path: &str) -> (path: String)
        ensures
            path@ == self.system_root@ + "\\"@ + image_path@,
    {
        let root = joined(self.system_root.as_str(), "\\");
        joined(root.as_str(), image_path)
    }
}

/// The image path of the API Set schema.
pub const API_SET_SCHEMA: &'static str = "System32\\apisetschema.dll";

/// The image path of a module among the drivers.
pub open spec fn drivers_path(file_name: Seq<char>) -> Seq<char> {
    "System32\\drivers\\"@ + file_name
}

/// The image path of a module in System32.
pub open spec fn system32_path(file_name: Seq<char>) -> Seq<char> {
    "System32\\"@ + file_name
}

/// The name under which a module is looked up in the API Set schema: its
/// file name without the extension ".dll".
pub open spec fn lookup_name(dll_name: Seq<char>) -> Seq<char> {
    dll_name.subrange(0, dll_name.len() - 4)
}

/// Whether the name of an imported module is that of an API Set: it ends in
/// ".dll", in lower case, and begins with "api-" or "ext-".
pub open spec fn is_api_set_name(dll_name: Seq<char>) -> bool {
    has_suffix(dll_name, ".dll"@) && (has_prefix(lookup_name(dll_name), "api-"@) || has_prefix(
        lookup_name(dll_name),
        "ext-"@,
    ))
}

/// The module that stands for an imported one, given what the API Set
/// schema says of its name. A name that is not that of an API Set stands
/// for itself, whatever the schema says. Where the schema cannot hold the
/// name of an API Set, has no entry for it, no redirection, or an empty
/// one, the system does not offer that API Set, and the import is passed
/// over.
pub open spec fn patched(dll_name: String, lookup: ApiSetLookup) -> Result<
    Option<String>,
    ImportError,
> {
    if !is_api_set_name(dll_name@) {
        Ok(Some(dll_name))
    } else if !api_set_key(lookup_name(dll_name@)) {
        Ok(None)
    } else {
        match lookup {
            ApiSetLookup::NoSchema => Err(ImportError::ApiSetNotRead),
            ApiSetLookup::NoEntry => Ok(None),
            ApiSetLookup::Corrupt => Err(ImportError::ApiSetNotRead),
            ApiSetLookup::NoValue => Ok(None),
            ApiSetLookup::Target(target, stored_empty) => if stored_empty {
                Ok(None)
            } else {
                Ok(Some(target))
            },
        }
    }
}

/// Tells whether a name can be looked up in an API Set schema.
pub fn is_api_set_key(name: &str) -> (valid: bool)
    ensures
        valid == api_set_key(name@),
{
    let n = name.unicode_len();
    if n == 0 {
        return false;
    }
    let mut i: usize = 0;
    while i < n
        invariant
            n == name@.len(),
            i <= n,
            forall|j: int| 0 <= j < i ==> api_set_key_char(#[trigger] name@[j]),
        decreases n - i,
    {
        let c = name.get_char(i);
        if !((c >= 'a' && c <= 'z') || (c >= '0' && c <= '9') || c == '-') {
            return false;
        }
        i += 1;
    }
    true
}

/// The name under which an imported module is looked up in the schema, if
/// its name is that of an API Set.
pub fn api_set_of(dll_name: &str) -> (lookup: Option<&str>)
    ensures
        match lookup {
            Some(lookup) => is_api_set_name(dll_name@) && lookup@ == lookup_name(dll_name@),
            None => !is_api_set_name(dll_name@),
        },
{
    if !ends_with(dll_name, ".dll") {
        return None;
    }
    proof {
        reveal_strlit(".dll");
    }
    let n = dll_name.unicode_len();
    let lookup = dll_name.substring_char(0, n - 4);
    if starts_with(lookup, "api-") || starts_with(lookup, "ext-") {
        Some(lookup)
    } else {
        None
    }
}

/// Says which module stands for an imported one, given what the schema
/// says of its name.
pub fn patched_name(dll_name: String, lookup: ApiSetLookup) -> (name: Result<
    Option<String>,
    ImportError,
>)
    ensures
        name == patched(dll_name, lookup),
{
    let offered = match api_set_of(dll_name.as_str()) {
        Some(lookup) => is_api_set_key(lookup),
        None => {
            return Ok(Some(dll_name));
        },
    };
    if !offered {
        return Ok(None);
    }
    match lookup {
        ApiSetLookup::NoSchema => Err(ImportError::ApiSetNotRead),
        ApiSetLookup::NoEntry => Ok(None),
        ApiSetLookup::Corrupt => Err(ImportError::ApiSetNotRead),
        ApiSetLookup::NoValue => Ok(None),
        ApiSetLookup::Target(target, stored_empty) => if stored_empty {
            Ok(None)
        } else {
            Ok(Some(target))
        },
    }
}

/// Says which module stands for an imported one on this system: looks the
/// name up in the schema where it is that of an API Set, and follows the
/// rule of `patched`.
pub fn patch_dll_name(dll_name: String, schema: &[u8]) -> (name: Result<Option<String>, ImportError>)
    ensures
        exists|lookup: ApiSetLookup| name == patched(dll_name, lookup),
        !is_api_set_name(dll_name@) ==> name == Ok::<Option<String>, ImportError>(Some(dll_name)),
        is_api_set_name(dll_name@) && !api_set_key(lookup_name(dll_name@)) ==> name == Ok::<
            Option<String>,
            ImportError,
        >(None),
{
    let found = match api_set_of(dll_name.as_str()) {
        Some(lookup) => if is_api_set_key(lookup) {
            api_set_lookup(schema, lookup)
        } else {
            ApiSetLookup::NoEntry
        },
        None => ApiSetLookup::NoEntry,
    };
    patched_name(dll_name, found)
}

/// What the handler is told of one imported module.
pub enum ImportName {
    /// The module to load for it.
    Use(String),
    /// The system does not offer it; it is passed over.
    Skip,
    /// It could not be made out.
    Fail(ImportError),
}

/// What the handler is told of the imports of an image.
pub enum ImageImports {
    /// The image could not be read.
    Unreadable,
    /// The imported modules, in the order in which the image lists them;
    /// none for an image without import directory.
    Names(Vec<ImportName>),
}

/// What the contracts see of an `ImportName`.
pub enum ImportNameView {
    Use(Seq<char>),
    Skip,
    Fail(ImportError),
}

impl View for ImportName {
    type V = ImportNameView;

    open spec fn view(&self) -> ImportNameView {
        match self {
            ImportName::Use(name) => ImportNameView::Use(name@),
            ImportName::Skip => ImportNameView::Skip,
            ImportName::Fail(error) => ImportNameView::Fail(*error),
        }
    }
}

/// The views of a sequence of import names.
pub open spec fn import_name_views(names: Seq<ImportName>) -> Seq<ImportNameView> {
    names.map_values(|name: ImportName| name@)
}

/// What the contracts see of an `ImageImports`.
pub enum ImageImportsView {
    Unreadable,
    Names(Seq<ImportNameView>),
}

impl View for ImageImports {
    type V = ImageImportsView;

    open spec fn view(&self) -> ImageImportsView {
        match self {
            ImageImports::Unreadable => ImageImportsView::Unreadable,
            ImageImports::Names(names) => ImageImportsView::Names(import_name_views(names@)),
        }
    }
}

/// What the handler makes of a decoded name and of what the schema says.
pub open spec fn import_name_of(patched_name: Result<Option<String>, ImportError>) -> ImportNameView {
    match patched_name {
        Ok(Some(name)) => ImportNameView::Use(name@),
        Ok(None) => ImportNameView::Skip,
        Err(error) => ImportNameView::Fail(error),
    }
}

/// Whether the handler is told of the imports of an image what their
/// decoded names call for: an image that is none cannot be read; an image
/// without import directory has no imports; each name is replaced by the
/// module that stands for it on this system, by the rule of `patched` and
/// some answer of the schema, and a name that could not be decoded fails
/// the import.
pub open spec fn told_of(decoded: PeImports, imports: ImageImportsView) -> bool {
    match decoded {
        PeImports::NotAnImage => imports == ImageImportsView::Unreadable,
        PeImports::NoImports => imports == ImageImportsView::Names(Seq::empty()),
        PeImports::Names(names) => {
            &&& imports matches ImageImportsView::Names(told)
            &&& told.len() == names.len()
            &&& forall|i: int|
                0 <= i < names.len() ==> (match #[trigger] names[i] {
                    None => told[i] == ImportNameView::Fail(ImportError::ImportNameNotRead),
                    Some(name) => exists|lookup: ApiSetLookup|
                        told[i] == import_name_of(patched(name, lookup)),
                })
        },
    }
}

/// Turns the decoded import directory of an image into what the handler is
/// told, looking up the names of API Sets in the schema.
pub fn image_imports(decoded: PeImports, schema: &[u8]) -> (imports: ImageImports)
    ensures
        told_of(decoded, imports@),
{
    match decoded {
        PeImports::NotAnImage => ImageImports::Unreadable,
        PeImports::NoImports => {
            let told: Vec<ImportName> = Vec::new();
            assert(import_name_views(told@) =~= Seq::empty());
            ImageImports::Names(told)
        },
        PeImports::Names(names) => {
            let ghost all = names@;
            let mut names = names;
            let mut told: Vec<ImportName> = Vec::new();
            while names.len() > 0
                invariant
                    names@.len() + told@.len() == all.len(),
                    names@ == all.skip(told@.len() as int),
                    forall|i: int|
                        0 <= i < told@.len() ==> (match #[trigger] all[i] {
                            None => told@[i]@ == ImportNameView::Fail(
                                ImportError::ImportNameNotRead,
                            ),
                            Some(name) => exists|lookup: ApiSetLookup|
                                told@[i]@ == import_name_of(patched(name, lookup)),
                        }),
                decreases names.len(),
            {
                let ghost k = told@.len() as int;
                let ghost before = told@;
                let name = names.remove(0);
                assert(name == all[k]);
                let next = match name {
                    None => ImportName::Fail(ImportError::ImportNameNotRead),
                    Some(name) => match patch_dll_name(name, schema) {
                        Ok(Some(name)) => ImportName::Use(name),
                        Ok(None) => ImportName::Skip,
                        Err(error) => ImportName::Fail(error),
                    },
                };
                told.push(next);
                proof {
                    assert(names@ =~= all.skip(k + 1));
                    assert forall|i: int| 0 <= i < told@.len() implies (match #[trigger] all[i] {
                        None => told@[i]@ == ImportNameView::Fail(ImportError::ImportNameNotRead),
                        Some(name) => exists|lookup: ApiSetLookup|
                            told@[i]@ == import_name_of(patched(name, lookup)),
                    }) by {
                        if i < k {
                            assert(told@[i] == before[i]);
                        }
                    }
                }
            }
            ImageImports::Names(told)
        },
    }
}

/// Decodes the import directory of an image and says which modules stand
/// for the imported ones on this system. What comes of it follows from
/// what the decoding and the schema gave.
pub fn read_imports(image: &[u8], schema: &[u8]) -> (imports: ImageImports)
    ensures
        exists|decoded: PeImports| told_of(decoded, imports@),
{
    image_imports(pe_import_names(image), schema)
}

/// Tells whether the bytes are a readable API Set schema, without which no
/// imports can be added.
pub fn check_schema(schema: &[u8]) -> (checked: Result<(), ImportError>)
    ensures
        exists|loads: bool| checked == schema_outcome(loads),
        schema@.len() < IMAGE_DOS_HEADER_SIZE ==> checked == schema_outcome(false),
{
    schema_checked(api_set_schema_loads(schema))
}

/// What the check of a schema comes to, given whether the bytes were read
/// as an image that holds a schema: without a schema the imports cannot be
/// added, and the check fails.
pub open spec fn schema_outcome(loads: bool) -> Result<(), ImportError> {
    if loads {
        Ok(())
    } else {
        Err(ImportError::SchemaNotLoaded)
    }
}

/// Says what the check of a schema comes to, given whether the bytes were
/// read as an image that holds a schema.
pub fn schema_checked(loads: bool) -> (checked: Result<(), ImportError>)
    ensures
        checked == schema_outcome(loads),
{
    if loads {
        Ok(())
    } else {
        Err(ImportError::SchemaNotLoaded)
    }
}

/// An image whose imports are being handled.
struct Frame {
    /// The image path of the image.
    image_path: String,
    /// Its imports that are still to be handled, the next one first.
    imports: Vec<ImportName>,
    /// The entry of the image, where it takes its place only behind the
    /// modules that it imports.
    entry: Option<NtLoadOrderEntry>,
}

/// What the handler waits to be told.
enum Awaiting {
    /// Nothing: it goes on by itself.
    Nothing,
    /// The imports of an image.
    Imports { image_path: String, entry: Option<NtLoadOrderEntry> },
    /// Whether a module is among the drivers.
    InDrivers { dll_name: String, importer: String },
    /// Whether a module is in System32.
    InSystem32 { dll_name: String, importer: String },
    /// Nothing more: it has finished or failed.
    End,
}

/// Places the entries and the modules that they import. The handler is
/// told what was found on disk, one answer at a time, and says after each
/// answer what it needs next.
pub struct ImportHandler {
    /// The load order so far.
    entries: Vec<NtLoadOrderEntry>,
    /// How many kernel binaries were copied into the load order at the
    /// start.
    seeded: usize,
    /// The image paths that have a place, in lower case.
    loaded_image_paths: StringHashSet,
    /// The entries whose imports are still to be handled, the next one
    /// first.
    services: Vec<NtLoadOrderEntry>,
    /// Whether only kernel binaries have been handled so far.
    in_kernel_binaries: bool,
    /// The images whose imports are being handled, the innermost last.
    frames: Vec<Frame>,
    awaiting: Awaiting,
}

/// What the contracts see of an image whose imports are being handled.
pub struct FrameView {
    pub image_path: Seq<char>,
    pub imports: Seq<ImportNameView>,
    pub entry: Option<EntryView>,
}

/// What the contracts see of what the handler waits for.
pub enum AwaitingView {
    Nothing,
    Imports { image_path: Seq<char>, entry: Option<EntryView> },
    InDrivers { dll_name: Seq<char>, importer: Seq<char> },
    InSystem32 { dll_name: Seq<char>, importer: Seq<char> },
    End,
}

/// What the contracts see of the handler.
pub struct ImportHandlerView {
    pub entries: Seq<EntryView>,
    pub seeded: nat,
    pub loaded: Set<Seq<char>>,
    pub services: Seq<EntryView>,
    pub in_kernel_binaries: bool,
    pub frames: Seq<FrameView>,
    pub awaiting: AwaitingView,
}

/// The view of an optional entry.
pub open spec fn optional_entry(entry: Option<NtLoadOrderEntry>) -> Option<EntryView> {
    match entry {
        Some(entry) => Some(entry@),
        None => None,
    }
}

impl View for Frame {
    type V = FrameView;

    closed spec fn view(&self) -> FrameView {
        FrameView {
            image_path: self.image_path@,
            imports: import_name_views(self.imports@),
            entry: optional_entry(self.entry),
        }
    }
}

impl View for Awaiting {
    type V = AwaitingView;

    closed spec fn view(&self) -> AwaitingView {
        match self {
            Awaiting::Nothing => AwaitingView::Nothing,
            Awaiting::Imports { image_path, entry } => AwaitingView::Imports {
                image_path: image_path@,
                entry: optional_entry(*entry),
            },
            Awaiting::InDrivers { dll_name, importer } => AwaitingView::InDrivers {
                dll_name: dll_name@,
                importer: importer@,
            },
            Awaiting::InSystem32 { dll_name, importer } => AwaitingView::InSystem32 {
                dll_name: dll_name@,
                importer: importer@,
            },
            Awaiting::End => AwaitingView::End,
        }
    }
}

/// The views of the images under way.
spec fn frame_views(frames: Seq<Frame>) -> Seq<FrameView> {
    frames.map_values(|frame: Frame| frame@)
}

impl View for ImportHandler {
    type V = ImportHandlerView;

    closed spec fn view(&self) -> ImportHandlerView {
        ImportHandlerView {
            entries: entry_views(self.entries@),
            seeded: self.seeded as nat,
            loaded: self.loaded_image_paths@,
            services: entry_views(self.services@),
            in_kernel_binaries: self.in_kernel_binaries,
            frames: frame_views(self.frames@),
            awaiting: self.awaiting@,
        }
    }
}

/// What the handler is told.
pub enum ImportAnswer {
    /// Nothing, since it asked for nothing.
    Go,
    /// The imports of the image that it asked for.
    Imports(ImageImports),
    /// Whether the file that it asked for exists.
    Exists(bool),
}

/// What the contracts see of an `ImportAnswer`.
pub enum ImportAnswerView {
    Go,
    Imports(ImageImportsView),
    Exists(bool),
}

impl View for ImportAnswer {
    type V = ImportAnswerView;

    open spec fn view(&self) -> ImportAnswerView {
        match self {
            ImportAnswer::Go => ImportAnswerView::Go,
            ImportAnswer::Imports(imports) => ImportAnswerView::Imports(imports@),
            ImportAnswer::Exists(exists) => ImportAnswerView::Exists(*exists),
        }
    }
}

/// What the handler needs next.
pub enum ImportRequest {
    /// Nothing: it is to be told `Go`.
    Continue,
    /// The imports of the image with this image path.
    ReadImage(String),
    /// Whether a file with this image path exists.
    Probe(String),
    /// Nothing more: the load order is complete.
    Finished,
    /// Nothing more: the imports cannot be added.
    Failed(ImportError),
}

/// What the contracts see of an `ImportRequest`.
pub enum ImportRequestView {
    Continue,
    ReadImage(Seq<char>),
    Probe(Seq<char>),
    Finished,
    Failed(ImportError),
}

impl View for ImportRequest {
    type V = ImportRequestView;

    open spec fn view(&self) -> ImportRequestView {
        match self {
            ImportRequest::Continue => ImportRequestView::Continue,
            ImportRequest::ReadImage(image_path) => ImportRequestView::ReadImage(image_path@),
            ImportRequest::Probe(image_path) => ImportRequestView::Probe(image_path@),
            ImportRequest::Finished => ImportRequestView::Finished,
            ImportRequest::Failed(error) => ImportRequestView::Failed(*error),
        }
    }
}

/// How many kernel binaries stand at the front of the entries.
pub open spec fn kernel_binary_count(entries: Seq<EntryView>) -> nat
    decreases entries.len(),
{
    if entries.len() > 0 && entries[0].is_kernel_binary {
        1 + kernel_binary_count(entries.drop_first())
    } else {
        0
    }
}

/// The image paths of the entries, in lower case, as a set.
pub open spec fn lowered_paths(entries: Seq<EntryView>) -> Set<Seq<char>>
    decreases entries.len(),
{
    if entries.len() == 0 {
        Set::empty()
    } else {
        lowered_paths(entries.drop_last()).insert(ascii_lower(entries.last().image_path))
    }
}

/// The handler before it was told anything: the kernel binaries at the
/// front of the entries have their places, in their order, and the imports
/// of all entries are still to be handled.
pub open spec fn initial_handler(entries: Seq<EntryView>) -> ImportHandlerView {
    ImportHandlerView {
        entries: entries.take(kernel_binary_count(entries) as int),
        seeded: kernel_binary_count(entries),
        loaded: lowered_paths(entries.take(kernel_binary_count(entries) as int)),
        services: entries,
        in_kernel_binaries: true,
        frames: Seq::empty(),
        awaiting: AwaitingView::Nothing,
    }
}

/// The entry of an imported module.
pub open spec fn import_entry(dll_name: Seq<char>, image_path: Seq<char>, importer: Seq<char>) -> EntryView {
    EntryView {
        name: dll_name,
        image_path,
        group: None,
        tag: None,
        reason: "Import of \""@ + importer + "\""@,
        is_kernel_binary: false,
    }
}

/// The handler gives up.
pub open spec fn failed(handler: ImportHandlerView, error: ImportError) -> (
    ImportHandlerView,
    ImportRequestView,
) {
    (
        ImportHandlerView { awaiting: AwaitingView::End, ..handler },
        ImportRequestView::Failed(error),
    )
}

/// An imported module was found at an image path. Where that path already
/// has a place, the import is done with. Otherwise the path is marked, and
/// the imports of the module are asked for; its entry waits until they
/// have their places.
pub open spec fn located(
    handler: ImportHandlerView,
    dll_name: Seq<char>,
    importer: Seq<char>,
    image_path: Seq<char>,
) -> (ImportHandlerView, ImportRequestView) {
    if handler.loaded.contains(ascii_lower(image_path)) {
        (
            ImportHandlerView { awaiting: AwaitingView::Nothing, ..handler },
            ImportRequestView::Continue,
        )
    } else {
        (
            ImportHandlerView {
                loaded: handler.loaded.insert(ascii_lower(image_path)),
                awaiting: AwaitingView::Imports {
                    image_path,
                    entry: Some(import_entry(dll_name, image_path, importer)),
                },
                ..handler
            },
            ImportRequestView::ReadImage(image_path),
        )
    }
}

/// The handler goes on by itself. Of the innermost image under way it takes
/// the next import: one that is passed over is dropped, one that failed
/// ends everything, any other is looked for among the drivers. An image
/// without further imports is done, and its entry, if it waited, takes its
/// place. With no image under way the next entry is taken: a kernel binary
/// at the front has its place already, and its imports are asked for; any
/// other entry whose image path has no place yet takes its place, and then
/// its imports are asked for. When nothing is left the load order is
/// complete.
pub open spec fn gone_on(handler: ImportHandlerView) -> (ImportHandlerView, ImportRequestView) {
    if handler.frames.len() > 0 {
        let frame = handler.frames.last();
        if frame.imports.len() > 0 {
            let rest = ImportHandlerView {
                frames: handler.frames.drop_last().push(
                    FrameView { imports: frame.imports.drop_first(), ..frame },
                ),
                ..handler
            };
            match frame.imports[0] {
                ImportNameView::Skip => (rest, ImportRequestView::Continue),
                ImportNameView::Fail(error) => failed(rest, error),
                ImportNameView::Use(dll_name) => (
                    ImportHandlerView {
                        awaiting: AwaitingView::InDrivers { dll_name, importer: frame.image_path },
                        ..rest
                    },
                    ImportRequestView::Probe(drivers_path(dll_name)),
                ),
            }
        } else {
            (
                ImportHandlerView {
                    frames: handler.frames.drop_last(),
                    entries: match frame.entry {
                        Some(entry) => handler.entries.push(entry),
                        None => handler.entries,
                    },
                    ..handler
                },
                ImportRequestView::Continue,
            )
        }
    } else if handler.services.len() > 0 {
        let entry = handler.services[0];
        let rest = ImportHandlerView { services: handler.services.drop_first(), ..handler };
        if handler.in_kernel_binaries && entry.is_kernel_binary {
            (
                ImportHandlerView {
                    awaiting: AwaitingView::Imports { image_path: entry.image_path, entry: None },
                    ..rest
                },
                ImportRequestView::ReadImage(entry.image_path),
            )
        } else if handler.loaded.contains(ascii_lower(entry.image_path)) {
            (ImportHandlerView { in_kernel_binaries: false, ..rest }, ImportRequestView::Continue)
        } else {
            (
                ImportHandlerView {
                    in_kernel_binaries: false,
                    loaded: handler.loaded.insert(ascii_lower(entry.image_path)),
                    entries: handler.entries.push(entry),
                    awaiting: AwaitingView::Imports { image_path: entry.image_path, entry: None },
                    ..rest
                },
                ImportRequestView::ReadImage(entry.image_path),
            )
        }
    } else {
        (ImportHandlerView { awaiting: AwaitingView::End, ..handler }, ImportRequestView::Finished)
    }
}

/// What the handler does with an answer, and what it needs next. An answer
/// that it did not ask for ends everything. The imports of an image are put
/// under way, the innermost image; an image that could not be read ends
/// everything. A module that is among the drivers is located there; one
/// that is not is looked for in System32, and where it is not there
/// either, everything ends.
pub open spec fn step(handler: ImportHandlerView, answer: ImportAnswerView) -> (
    ImportHandlerView,
    ImportRequestView,
) {
    match handler.awaiting {
        AwaitingView::End => failed(handler, ImportError::UnexpectedAnswer),
        AwaitingView::Nothing => match answer {
            ImportAnswerView::Go => gone_on(handler),
            _ => failed(handler, ImportError::UnexpectedAnswer),
        },
        AwaitingView::Imports { image_path, entry } => match answer {
            ImportAnswerView::Imports(ImageImportsView::Unreadable) => failed(
                handler,
                ImportError::ImageNotRead,
            ),
            ImportAnswerView::Imports(ImageImportsView::Names(imports)) => (
                ImportHandlerView {
                    frames: handler.frames.push(FrameView { image_path, imports, entry }),
                    awaiting: AwaitingView::Nothing,
                    ..handler
                },
                ImportRequestView::Continue,
            ),
            _ => failed(handler, ImportError::UnexpectedAnswer),
        },
        AwaitingView::InDrivers { dll_name, importer } => match answer {
            ImportAnswerView::Exists(true) => located(
                handler,
                dll_name,
                importer,
                drivers_path(dll_name),
            ),
            ImportAnswerView::Exists(false) => (
                ImportHandlerView {
                    awaiting: AwaitingView::InSystem32 { dll_name, importer },
                    ..handler
                },
                ImportRequestView::Probe(system32_path(dll_name)),
            ),
            _ => failed(handler, ImportError::UnexpectedAnswer),
        },
        AwaitingView::InSystem32 { dll_name, importer } => match answer {
            ImportAnswerView::Exists(true) => located(
                handler,
                dll_name,
                importer,
                system32_path(dll_name),
            ),
            ImportAnswerView::Exists(false) => failed(handler, ImportError::ImportNotFound),
            _ => failed(handler, ImportError::UnexpectedAnswer),
        },
    }
}

/// The count of kernel binaries at the front is the place of the first
/// entry that is none.
pub proof fn lemma_kernel_binary_count(entries: Seq<EntryView>, count: int)
    requires
        0 <= count <= entries.len(),
        forall|j: int| 0 <= j < count ==> (#[trigger] entries[j]).is_kernel_binary,
        count < entries.len() ==> !entries[count].is_kernel_binary,
    ensures
        kernel_binary_count(entries) == count,
    decreases entries.len(),
{
    if entries.len() > 0 && entries[0].is_kernel_binary {
        let rest = entries.drop_first();
        assert(count > 0);
        assert forall|j: int| 0 <= j < count - 1 implies (#[trigger] rest[j]).is_kernel_binary by {
            assert(rest[j] == entries[j + 1]);
        }
        if count - 1 < rest.len() {
            assert(rest[count - 1] == entries[count]);
        }
        lemma_kernel_binary_count(rest, count - 1);
    } else if entries.len() > 0 {
        if count > 0 {
            assert(entries[0].is_kernel_binary);
        }
    }
}

/// Gives up.
fn failing(handler: ImportHandler, error: ImportError) -> (next: (ImportHandler, ImportRequest))
    ensures
        (next.0@, next.1@) == failed(handler@, error),
{
    let mut handler = handler;
    handler.awaiting = Awaiting::End;
    (handler, ImportRequest::Failed(error))
}

/// Takes note that an imported module was found at an image path.
fn locating(handler: ImportHandler, dll_name: String, importer: String, image_path: String) -> (next:
    (ImportHandler, ImportRequest))
    ensures
        (next.0@, next.1@) == located(handler@, dll_name@, importer@, image_path@),
{
    let mut handler = handler;
    let ghost before = handler@;
    let key = image_path.as_str().to_ascii_lowercase();
    if handler.loaded_image_paths.insert(key) {
        let opening = joined("Import of \"", importer.as_str());
        let entry = NtLoadOrderEntry {
            name: dll_name,
            image_path: image_path.clone(),
            group: None,
            tag: None,
            reason: joined(opening.as_str(), "\""),
            is_kernel_binary: false,
        };
        handler.awaiting = Awaiting::Imports { image_path: image_path.clone(), entry: Some(entry) };
        (handler, ImportRequest::ReadImage(image_path))
    } else {
        handler.awaiting = Awaiting::Nothing;
        proof {
            assert(handler@.loaded =~= before.loaded);
        }
        (handler, ImportRequest::Continue)
    }
}

/// Goes on without having been told anything.
fn going_on(handler: ImportHandler) -> (next: (ImportHandler, ImportRequest))
    ensures
        (next.0@, next.1@) == gone_on(handler@),
{
    let mut handler = handler;
    let ghost before = handler@;
    let ghost frames_before = handler.frames@;
    if handler.frames.len() > 0 {
        let mut frame = handler.frames.pop().unwrap();
        let ghost frame_before = frame@;
        proof {
            assert(frame_views(frames_before).last() == frame_before);
            assert(frame_views(handler.frames@) =~= before.frames.drop_last());
        }
        if frame.imports.len() > 0 {
            let ghost imports_before = frame.imports@;
            let name = frame.imports.remove(0);
            let importer = frame.image_path.clone();
            proof {
                assert(import_name_views(frame.imports@) =~= frame_before.imports.drop_first());
                assert(name@ == frame_before.imports[0]);
            }
            handler.frames.push(frame);
            proof {
                assert(frame_views(handler.frames@) =~= before.frames.drop_last().push(
                    FrameView { imports: frame_before.imports.drop_first(), ..frame_before },
                ));
            }
            match name {
                ImportName::Skip => (handler, ImportRequest::Continue),
                ImportName::Fail(error) => failing(handler, error),
                ImportName::Use(dll_name) => {
                    let image_path = joined("System32\\drivers\\", dll_name.as_str());
                    handler.awaiting = Awaiting::InDrivers { dll_name, importer };
                    (handler, ImportRequest::Probe(image_path))
                },
            }
        } else {
            match frame.entry {
                Some(entry) => {
                    handler.entries.push(entry);
                    proof {
                        assert(entry_views(handler.entries@) =~= before.entries.push(entry@));
                    }
                },
                None => {},
            }
            (handler, ImportRequest::Continue)
        }
    } else if handler.services.len() > 0 {
        let entry = handler.services.remove(0);
        let image_path = entry.image_path.clone();
        proof {
            assert(before.frames.len() == 0);
            assert(entry_views(handler.services@) =~= before.services.drop_first());
            assert(entry@ == before.services[0]);
        }
        if handler.in_kernel_binaries && entry.is_kernel_binary {
            handler.awaiting = Awaiting::Imports { image_path: image_path.clone(), entry: None };
            (handler, ImportRequest::ReadImage(image_path))
        } else {
            handler.in_kernel_binaries = false;
            let key = image_path.as_str().to_ascii_lowercase();
            if handler.loaded_image_paths.insert(key) {
                handler.entries.push(entry);
                proof {
                    assert(entry_views(handler.entries@) =~= before.entries.push(entry@));
                }
                handler.awaiting = Awaiting::Imports {
                    image_path: image_path.clone(),
                    entry: None,
                };
                (handler, ImportRequest::ReadImage(image_path))
            } else {
                proof {
                    assert(handler@.loaded =~= before.loaded);
                }
                (handler, ImportRequest::Continue)
            }
        }
    } else {
        proof {
            assert(before.frames.len() == 0);
            assert(before.services.len() == 0);
        }
        handler.awaiting = Awaiting::End;
        (handler, ImportRequest::Finished)
    }
}

impl ImportHandler {
    /// A handler for the entries of the list, which has been told nothing
    /// yet.
    pub fn new(entries: VecList<NtLoadOrderEntry>) -> (handler: Self)
        ensures
            handler@ == initial_handler(list_entries(entries)),
            handler_consistent(handler@),
    {
        proof {
            lemma_initial_handler_consistent(list_entries(entries));
        }
        let entries = list_into_vec(entries);
        let ghost all = entry_views(entries@);
        let mut placed: Vec<NtLoadOrderEntry> = Vec::new();
        let mut loaded = StringHashSet::new();
        let mut i: usize = 0;
        let mut more = true;
        proof {
            assert(entry_views(placed@) =~= all.take(0));
        }
        while more
            invariant
                all == entry_views(entries@),
                i <= entries.len(),
                entry_views(placed@) == all.take(i as int),
                loaded@ == lowered_paths(all.take(i as int)),
                forall|j: int| 0 <= j < i ==> (#[trigger] all[j]).is_kernel_binary,
                !more ==> (i < entries.len() ==> !all[i as int].is_kernel_binary),
                more || i <= entries.len(),
            decreases (entries.len() - i) + (if more { 1int } else { 0int }),
        {
            if i < entries.len() {
                let entry = &entries[i];
                if entry.is_kernel_binary {
                    loaded.insert(entry.image_path.as_str().to_ascii_lowercase());
                    placed.push(entry.clone());
                    proof {
                        assert(all.take(i + 1).drop_last() =~= all.take(i as int));
                        assert(all.take(i + 1).last() == all[i as int]);
                        assert(entry_views(placed@) =~= all.take(i + 1));
                    }
                    i += 1;
                } else {
                    more = false;
                }
            } else {
                more = false;
            }
        }
        proof {
            lemma_kernel_binary_count(all, i as int);
        }
        let frames: Vec<Frame> = Vec::new();
        proof {
            assert(frame_views(frames@) =~= Seq::empty());
        }
        ImportHandler {
            entries: placed,
            seeded: i,
            loaded_image_paths: loaded,
            services: entries,
            in_kernel_binaries: true,
            frames,
            awaiting: Awaiting::Nothing,
        }
    }

    /// Takes an answer and says what is needed next.
    pub fn advance(self, answer: ImportAnswer) -> (next: (ImportHandler, ImportRequest))
        ensures
            (next.0@, next.1@) == step(self@, answer@),
            handler_consistent(self@) ==> handler_consistent(next.0@),
    {
        proof {
            if handler_consistent(self@) {
                lemma_step_consistent(self@, answer@);
            }
        }
        let mut handler = self;
        let mut awaiting = Awaiting::End;
        let ghost before = handler@;
        core::mem::swap(&mut handler.awaiting, &mut awaiting);
        match awaiting {
            Awaiting::End => failing(handler, ImportError::UnexpectedAnswer),
            Awaiting::Nothing => match answer {
                ImportAnswer::Go => {
                    handler.awaiting = Awaiting::Nothing;
                    going_on(handler)
                },
                _ => {
                    handler.awaiting = Awaiting::Nothing;
                    failing(handler, ImportError::UnexpectedAnswer)
                },
            },
            Awaiting::Imports { image_path, entry } => match answer {
                ImportAnswer::Imports(ImageImports::Unreadable) => failing(
                    handler,
                    ImportError::ImageNotRead,
                ),
                ImportAnswer::Imports(ImageImports::Names(imports)) => {
                    let frame = Frame { image_path, imports, entry };
                    handler.frames.push(frame);
                    handler.awaiting = Awaiting::Nothing;
                    proof {
                        assert(frame_views(handler.frames@) =~= before.frames.push(frame@));
                    }
                    (handler, ImportRequest::Continue)
                },
                _ => failing(handler, ImportError::UnexpectedAnswer),
            },
            Awaiting::InDrivers { dll_name, importer } => match answer {
                ImportAnswer::Exists(true) => {
                    let image_path = joined("System32\\drivers\\", dll_name.as_str());
                    locating(handler, dll_name, importer, image_path)
                },
                ImportAnswer::Exists(false) => {
                    let image_path = joined("System32\\", dll_name.as_str());
                    handler.awaiting = Awaiting::InSystem32 { dll_name, importer };
                    (handler, ImportRequest::Probe(image_path))
                },
                _ => failing(handler, ImportError::UnexpectedAnswer),
            },
            Awaiting::InSystem32 { dll_name, importer } => match answer {
                ImportAnswer::Exists(true) => {
                    let image_path = joined("System32\\", dll_name.as_str());
                    locating(handler, dll_name, importer, image_path)
                },
                ImportAnswer::Exists(false) => failing(handler, ImportError::ImportNotFound),
                _ => failing(handler, ImportError::UnexpectedAnswer),
            },
        }
    }

    /// The load order so far; once the handler has finished, the complete
    /// one.
    pub fn into_entries(self) -> (entries: Vec<NtLoadOrderEntry>)
        ensures
            entry_views(entries@) == self@.entries,
    {
        self.entries
    }
}

/// The image path of an optional entry, in lower case: a sequence of one
/// path, or of none.
pub open spec fn entry_path(entry: Option<EntryView>) -> Seq<Seq<char>> {
    match entry {
        Some(entry) => seq![ascii_lower(entry.image_path)],
        None => Seq::empty(),
    }
}

/// The image paths, in lower case, of the entries that wait in the images
/// under way, the innermost first.
pub open spec fn waiting_paths(frames: Seq<FrameView>) -> Seq<Seq<char>>
    decreases frames.len(),
{
    if frames.len() == 0 {
        Seq::empty()
    } else {
        entry_path(frames.last().entry) + waiting_paths(frames.drop_last())
    }
}

/// The image path, in lower case, of the entry that waits for the imports
/// of its image to be told.
pub open spec fn awaited_path(awaiting: AwaitingView) -> Seq<Seq<char>> {
    match awaiting {
        AwaitingView::Imports { image_path, entry } => entry_path(entry),
        _ => Seq::empty(),
    }
}

/// The image paths of the entries, in lower case and in their order.
pub open spec fn placed_paths(entries: Seq<EntryView>) -> Seq<Seq<char>> {
    entries.map_values(|entry: EntryView| ascii_lower(entry.image_path))
}

/// The image paths, in lower case, of all entries that the handler has
/// placed behind the kernel binaries or is about to place.
pub open spec fn claimed_paths(handler: ImportHandlerView) -> Seq<Seq<char>> {
    placed_paths(handler.entries.skip(handler.seeded as int)) + awaited_path(handler.awaiting)
        + waiting_paths(handler.frames)
}

/// What holds of the handler at all times: no image path is claimed twice,
/// none that a kernel binary at the front has, and every path that is
/// claimed or that such a kernel binary has is marked.
pub open spec fn handler_consistent(handler: ImportHandlerView) -> bool {
    &&& handler.seeded <= handler.entries.len()
    &&& claimed_paths(handler).no_duplicates()
    &&& forall|path: Seq<char>|
        claimed_paths(handler).contains(path) ==> handler.loaded.contains(path)
    &&& forall|i: int|
        0 <= i < handler.seeded ==> handler.loaded.contains(
            #[trigger] placed_paths(handler.entries)[i],
        )
    &&& forall|i: int|
        0 <= i < handler.seeded ==> !claimed_paths(handler).contains(
            #[trigger] placed_paths(handler.entries)[i],
        )
}

/// The set of the image paths of entries holds the path of each of them.
proof fn lemma_lowered_paths_contains(entries: Seq<EntryView>, i: int)
    requires
        0 <= i < entries.len(),
    ensures
        lowered_paths(entries).contains(ascii_lower(entries[i].image_path)),
    decreases entries.len(),
{
    if i < entries.len() - 1 {
        lemma_lowered_paths_contains(entries.drop_last(), i);
    }
}

/// There are no more kernel binaries at the front than entries.
pub proof fn lemma_kernel_binary_count_bound(entries: Seq<EntryView>)
    ensures
        kernel_binary_count(entries) <= entries.len(),
    decreases entries.len(),
{
    if entries.len() > 0 && entries[0].is_kernel_binary {
        lemma_kernel_binary_count_bound(entries.drop_first());
    }
}

/// A handler that has been told nothing is consistent.
pub proof fn lemma_initial_handler_consistent(entries: Seq<EntryView>)
    ensures
        handler_consistent(initial_handler(entries)),
{
    let handler = initial_handler(entries);
    lemma_kernel_binary_count_bound(entries);
    assert(handler.entries.skip(handler.seeded as int) =~= Seq::empty());
    assert(claimed_paths(handler) =~= Seq::empty());
    assert forall|i: int| 0 <= i < handler.seeded implies handler.loaded.contains(
        #[trigger] placed_paths(handler.entries)[i],
    ) by {
        lemma_lowered_paths_contains(handler.entries, i);
    }
}

/// What has no duplicates has none when a part is left out.
proof fn lemma_without_middle<A>(a: Seq<A>, b: Seq<A>, c: Seq<A>)
    requires
        (a + b + c).no_duplicates(),
    ensures
        (a + c).no_duplicates(),
        forall|x: A| (a + c).contains(x) ==> (a + b + c).contains(x),
{
    let all = a + b + c;
    let part = a + c;
    assert forall|i: int, j: int| 0 <= i < part.len() && 0 <= j < part.len() && i != j implies part[i]
        != part[j] by {
        let oi = if i < a.len() { i } else { i + b.len() };
        let oj = if j < a.len() { j } else { j + b.len() };
        assert(part[i] == all[oi]);
        assert(part[j] == all[oj]);
    }
    assert forall|x: A| part.contains(x) implies all.contains(x) by {
        let i = part.index_of(x);
        assert(0 <= i < part.len() && part[i] == x);
        let oi = if i < a.len() { i } else { i + b.len() };
        assert(all[oi] == x);
    }
}

/// The handler claims an image path that was not marked.
proof fn lemma_claim(before: ImportHandlerView, after: ImportHandlerView, path: Seq<char>, at: int)
    requires
        handler_consistent(before),
        !before.loaded.contains(path),
        after.loaded == before.loaded.insert(path),
        after.seeded == before.seeded,
        after.seeded <= after.entries.len(),
        forall|i: int|
            0 <= i < before.seeded ==> #[trigger] placed_paths(after.entries)[i] == placed_paths(
                before.entries,
            )[i],
        0 <= at <= claimed_paths(before).len(),
        claimed_paths(after) == claimed_paths(before).insert(at, path),
    ensures
        handler_consistent(after),
{
    let old_claims = claimed_paths(before);
    assert(!old_claims.contains(path));
    lemma_no_duplicates_insert(old_claims, at, path);
    assert forall|i: int| 0 <= i < after.seeded implies !claimed_paths(after).contains(
        #[trigger] placed_paths(after.entries)[i],
    ) && after.loaded.contains(placed_paths(after.entries)[i]) by {
        let seed = placed_paths(before.entries)[i];
        assert(before.loaded.contains(seed));
        assert(!old_claims.contains(seed));
    }
}

/// The handler changes nothing of what is claimed and marked, or gives up
/// a claim.
proof fn lemma_keep(before: ImportHandlerView, after: ImportHandlerView)
    requires
        handler_consistent(before),
        after.loaded == before.loaded,
        after.seeded == before.seeded,
        after.seeded <= after.entries.len(),
        forall|i: int|
            0 <= i < before.seeded ==> #[trigger] placed_paths(after.entries)[i] == placed_paths(
                before.entries,
            )[i],
        claimed_paths(after).no_duplicates(),
        forall|path: Seq<char>|
            claimed_paths(after).contains(path) ==> claimed_paths(before).contains(path),
    ensures
        handler_consistent(after),
{
    assert forall|i: int| 0 <= i < after.seeded implies !claimed_paths(after).contains(
        #[trigger] placed_paths(after.entries)[i],
    ) && after.loaded.contains(placed_paths(after.entries)[i]) by {
        let seed = placed_paths(before.entries)[i];
        assert(before.loaded.contains(seed));
        assert(!claimed_paths(before).contains(seed));
    }
}

/// The entry of the innermost image waits in front of the others.
proof fn lemma_waiting_paths_push(frames: Seq<FrameView>, frame: FrameView)
    ensures
        waiting_paths(frames.push(frame)) == entry_path(frame.entry) + waiting_paths(frames),
{
    assert(frames.push(frame).drop_last() =~= frames);
}

/// Locating an imported module keeps the handler consistent.
proof fn lemma_located_consistent(
    handler: ImportHandlerView,
    dll_name: Seq<char>,
    importer: Seq<char>,
    image_path: Seq<char>,
)
    requires
        handler_consistent(handler),
        awaited_path(handler.awaiting).len() == 0,
    ensures
        handler_consistent(located(handler, dll_name, importer, image_path).0),
{
    let after = located(handler, dll_name, importer, image_path).0;
    let placed = placed_paths(handler.entries.skip(handler.seeded as int));
    assert(awaited_path(handler.awaiting) =~= Seq::empty());
    if handler.loaded.contains(ascii_lower(image_path)) {
        assert(claimed_paths(after) =~= claimed_paths(handler));
        lemma_keep(handler, after);
    } else {
        assert(claimed_paths(after) =~= claimed_paths(handler).insert(
            placed.len() as int,
            ascii_lower(image_path),
        ));
        lemma_claim(handler, after, ascii_lower(image_path), placed.len() as int);
    }
}

/// Giving up keeps the handler consistent.
proof fn lemma_failed_consistent(handler: ImportHandlerView, error: ImportError)
    requires
        handler_consistent(handler),
    ensures
        handler_consistent(failed(handler, error).0),
{
    let after = failed(handler, error).0;
    let placed = placed_paths(handler.entries.skip(handler.seeded as int));
    lemma_without_middle(placed, awaited_path(handler.awaiting), waiting_paths(handler.frames));
    assert(claimed_paths(after) =~= placed + waiting_paths(handler.frames));
    lemma_keep(handler, after);
}

/// Going on keeps the handler consistent.
proof fn lemma_gone_on_consistent(handler: ImportHandlerView)
    requires
        handler_consistent(handler),
        handler.awaiting is Nothing,
    ensures
        handler_consistent(gone_on(handler).0),
{
    let after = gone_on(handler).0;
    let seeded = handler.seeded as int;
    let placed = placed_paths(handler.entries.skip(seeded));
    assert(awaited_path(handler.awaiting) =~= Seq::empty());
    if handler.frames.len() > 0 {
        let frame = handler.frames.last();
        if frame.imports.len() > 0 {
            let taken = FrameView { imports: frame.imports.drop_first(), ..frame };
            let rest = ImportHandlerView {
                frames: handler.frames.drop_last().push(taken),
                ..handler
            };
            lemma_waiting_paths_push(handler.frames.drop_last(), taken);
            assert(claimed_paths(rest) =~= claimed_paths(handler));
            lemma_keep(handler, rest);
            match frame.imports[0] {
                ImportNameView::Skip => {},
                ImportNameView::Fail(error) => {
                    lemma_failed_consistent(rest, error);
                },
                ImportNameView::Use(dll_name) => {
                    assert(claimed_paths(after) =~= claimed_paths(rest));
                    lemma_keep(rest, after);
                },
            }
        } else {
            match frame.entry {
                Some(entry) => {
                    assert(handler.entries.push(entry).skip(seeded) =~= handler.entries.skip(
                        seeded,
                    ).push(entry));
                    assert(placed_paths(handler.entries.skip(seeded).push(entry)) =~= placed.push(
                        ascii_lower(entry.image_path),
                    ));
                    assert(claimed_paths(after) =~= claimed_paths(handler));
                },
                None => {
                    assert(claimed_paths(after) =~= claimed_paths(handler));
                },
            }
            lemma_keep(handler, after);
        }
    } else if handler.services.len() > 0 {
        let entry = handler.services[0];
        assert(waiting_paths(handler.frames) =~= Seq::empty());
        if handler.in_kernel_binaries && entry.is_kernel_binary {
            assert(claimed_paths(after) =~= claimed_paths(handler));
            lemma_keep(handler, after);
        } else if handler.loaded.contains(ascii_lower(entry.image_path)) {
            assert(claimed_paths(after) =~= claimed_paths(handler));
            lemma_keep(handler, after);
        } else {
            assert(handler.entries.push(entry).skip(seeded) =~= handler.entries.skip(seeded).push(
                entry,
            ));
            assert(placed_paths(handler.entries.skip(seeded).push(entry)) =~= placed.push(
                ascii_lower(entry.image_path),
            ));
            assert(claimed_paths(after) =~= claimed_paths(handler).insert(
                placed.len() as int,
                ascii_lower(entry.image_path),
            ));
            lemma_claim(handler, after, ascii_lower(entry.image_path), placed.len() as int);
        }
    } else {
        assert(claimed_paths(after) =~= claimed_paths(handler));
        lemma_keep(handler, after);
    }
}

/// Whatever the handler is told, it stays consistent.
pub proof fn lemma_step_consistent(handler: ImportHandlerView, answer: ImportAnswerView)
    requires
        handler_consistent(handler),
    ensures
        handler_consistent(step(handler, answer).0),
{
    let after = step(handler, answer).0;
    match handler.awaiting {
        AwaitingView::End => {
            lemma_failed_consistent(handler, ImportError::UnexpectedAnswer);
        },
        AwaitingView::Nothing => match answer {
            ImportAnswerView::Go => {
                lemma_gone_on_consistent(handler);
            },
            _ => {
                lemma_failed_consistent(handler, ImportError::UnexpectedAnswer);
            },
        },
        AwaitingView::Imports { image_path, entry } => match answer {
            ImportAnswerView::Imports(ImageImportsView::Unreadable) => {
                lemma_failed_consistent(handler, ImportError::ImageNotRead);
            },
            ImportAnswerView::Imports(ImageImportsView::Names(imports)) => {
                lemma_waiting_paths_push(handler.frames, FrameView { image_path, imports, entry });
                assert(claimed_paths(after) =~= claimed_paths(handler));
                lemma_keep(handler, after);
            },
            _ => {
                lemma_failed_consistent(handler, ImportError::UnexpectedAnswer);
            },
        },
        AwaitingView::InDrivers { dll_name, importer } => match answer {
            ImportAnswerView::Exists(true) => {
                lemma_located_consistent(handler, dll_name, importer, drivers_path(dll_name));
            },
            ImportAnswerView::Exists(false) => {
                assert(claimed_paths(after) =~= claimed_paths(handler));
                lemma_keep(handler, after);
            },
            _ => {
                lemma_failed_consistent(handler, ImportError::UnexpectedAnswer);
            },
        },
        AwaitingView::InSystem32 { dll_name, importer } => match answer {
            ImportAnswerView::Exists(true) => {
                lemma_located_consistent(handler, dll_name, importer, system32_path(dll_name));
            },
            ImportAnswerView::Exists(false) => {
                lemma_failed_consistent(handler, ImportError::ImportNotFound);
            },
            _ => {
                lemma_failed_consistent(handler, ImportError::UnexpectedAnswer);
            },
        },
    }
}

/// Whatever the handler is told, the load order so far stays as it is, or
/// one entry is put behind it. So an entry that waits for the imports of
/// its image comes to stand behind every entry that is placed while it
/// waits, and an entry that is placed before its imports are asked for
/// stands in front of them.
pub proof fn lemma_step_appends(handler: ImportHandlerView, answer: ImportAnswerView)
    ensures
        step(handler, answer).0.entries == handler.entries || (exists|entry: EntryView|
            step(handler, answer).0.entries == handler.entries.push(entry)),
        step(handler, answer).0.seeded == handler.seeded,
{
    let after = step(handler, answer).0;
    if after.entries != handler.entries {
        if handler.frames.len() > 0 {
            let frame = handler.frames.last();
            assert(frame.entry is Some);
            assert(after.entries == handler.entries.push(frame.entry.unwrap()));
        } else {
            assert(after.entries == handler.entries.push(handler.services[0]));
        }
    }
}

/// The image path of every entry that waits in an image under way is among
/// the waiting paths.
proof fn lemma_waiting_paths_contains(frames: Seq<FrameView>, k: int)
    requires
        0 <= k < frames.len(),
        frames[k].entry is Some,
    ensures
        waiting_paths(frames).contains(ascii_lower(frames[k].entry.unwrap().image_path)),
    decreases frames.len(),
{
    let path = ascii_lower(frames[k].entry.unwrap().image_path);
    let first = entry_path(frames.last().entry);
    let rest = waiting_paths(frames.drop_last());
    if k == frames.len() - 1 {
        assert((first + rest)[0] == path);
    } else {
        lemma_waiting_paths_contains(frames.drop_last(), k);
        let at = rest.index_of(path);
        assert(0 <= at < rest.len() && rest[at] == path);
        assert((first + rest)[first.len() + at] == path);
    }
}

/// While an imported module waits for its own imports, it has no place in
/// the load order. With `lemma_step_appends` this says that it comes to
/// stand behind everything that is placed while it waits: the modules that
/// a module imports stand in front of it.
pub proof fn lemma_waiting_is_unplaced(handler: ImportHandlerView, k: int, i: int)
    requires
        handler_consistent(handler),
        0 <= k < handler.frames.len(),
        handler.frames[k].entry is Some,
        0 <= i < handler.entries.len(),
    ensures
        ascii_lower(handler.entries[i].image_path) != ascii_lower(
            handler.frames[k].entry.unwrap().image_path,
        ),
{
    let seeded = handler.seeded as int;
    let claims = claimed_paths(handler);
    let placed = placed_paths(handler.entries.skip(seeded));
    let awaited = awaited_path(handler.awaiting);
    let waiting = waiting_paths(handler.frames);
    let path = ascii_lower(handler.frames[k].entry.unwrap().image_path);
    lemma_waiting_paths_contains(handler.frames, k);
    let at = waiting.index_of(path);
    assert(0 <= at < waiting.len() && waiting[at] == path);
    assert(claims[placed.len() + awaited.len() + at] == path);
    if i >= seeded {
        assert(claims[i - seeded] == placed[i - seeded]);
        assert(placed[i - seeded] == ascii_lower(handler.entries[i].image_path));
    } else {
        assert(placed_paths(handler.entries)[i] == ascii_lower(handler.entries[i].image_path));
        assert(claims.contains(path));
    }
}

/// In the load order of a consistent handler, no two entries behind the
/// kernel binaries at the front have the same image path, the case of
/// ASCII letters ignored, and none has the image path of such a kernel
/// binary: every module is placed once.
pub proof fn lemma_placed_once(handler: ImportHandlerView, i: int, j: int)
    requires
        handler_consistent(handler),
        0 <= i < j < handler.entries.len(),
        handler.seeded <= j,
    ensures
        ascii_lower(handler.entries[i].image_path) != ascii_lower(handler.entries[j].image_path),
{
    let seeded = handler.seeded as int;
    let claims = claimed_paths(handler);
    let placed = placed_paths(handler.entries.skip(seeded));
    assert(claims[j - seeded] == placed[j - seeded]);
    assert(placed[j - seeded] == ascii_lower(handler.entries[j].image_path));
    if i >= seeded {
        assert(claims[i - seeded] == placed[i - seeded]);
        assert(placed[i - seeded] == ascii_lower(handler.entries[i].image_path));
    } else {
        assert(placed_paths(handler.entries)[i] == ascii_lower(handler.entries[i].image_path));
        assert(claims.contains(claims[j - seeded]));
    }
}

} // verus!
