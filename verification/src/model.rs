use vstd::prelude::*;
use vstd::std_specs::cmp::PartialEqSpec;

verus! {

/// Four-character tags and other fixed constants of the container format,
/// each tag packed as the little-endian 32-bit value of its four bytes.
pub const TAG_GRUP: u32 = 0x50555247;

pub const TAG_TES4: u32 = 0x34534554;

pub const TAG_CELL: u32 = 0x4C4C4543;

pub const TAG_WRLD: u32 = 0x444C5257;

pub const TAG_HEDR: u32 = 0x52444548;

pub const TAG_CNAM: u32 = 0x4D414E43;

pub const TAG_SNAM: u32 = 0x4D414E53;

pub const TAG_MAST: u32 = 0x5453414D;

pub const TAG_INTV: u32 = 0x56544E49;

pub const TAG_XXXX: u32 = 0x58585858;

pub const TAG_EDID: u32 = 0x44494445;

pub const TAG_XCLC: u32 = 0x434C4358;

/// The record-flag bits this decoder knows about; unknown bits are masked
/// off rather than rejected, so that files from newer format revisions
/// still decode.
pub const KNOWN_RECORD_FLAGS: u32 = 0xFE9F9FF1;

/// Record-flag bit: the record payload is deflate-compressed.
pub const FLAG_COMPRESSED: u32 = 0x00040000;

/// Record-flag bit: the cell is the persistent-reference cell of its world.
pub const FLAG_PERSISTENT: u32 = 0x00000400;

/// Nesting levels of groups beyond which traversal refuses the input, so
/// that adversarial files cannot grow the call stack without bound.
pub const MAX_GROUP_DEPTH: u32 = 64;

/// Why a decode failed. Every failure is final: group and record boundaries
/// cannot be trusted past a misparse, so no resynchronization is attempted.
#[derive(Clone, Copy, Debug, PartialEq, Eq, Structural)]
pub enum DecodeError {
    /// Fewer bytes were available than a header or field declared.
    TruncatedInput,
    /// A group header was requested where the group tag is absent.
    UnexpectedTag,
    /// A group declared a size smaller than its own header.
    UnrecognizedHeader,
    /// A record or field tag is not valid text.
    InvalidEncoding,
    /// The first record of the file is not the plugin-header record.
    MissingPluginHeader,
    /// The plugin-header record does not start with its fixed metadata field.
    MalformedHeader,
    /// A world record does not start with its editor-id field.
    MissingEditorId,
    /// A compressed payload could not be inflated.
    DecompressionFailed,
    /// Groups were nested deeper than the traversal limit.
    DepthLimitExceeded,
}

/// Decoded plugin-header record: file metadata and the ordered dependency
/// list of master filenames (order-significant, duplicates kept).
#[derive(Debug)]
pub struct PluginHeader {
    /// Bit pattern of the 32-bit IEEE-754 file-format version number, kept
    /// as raw bits; callers that need the numeric value reinterpret them.
    pub version_bits: u32,
    pub num_records_and_groups: i32,
    pub next_object_id: u32,
    pub author: Option<String>,
    pub description: Option<String>,
    pub masters: Vec<String>,
}

/// Mathematical value of a decoded plugin header.
pub ghost struct PluginHeaderM {
    pub version_bits: u32,
    pub num_records_and_groups: i32,
    pub next_object_id: u32,
    pub author: Option<Seq<char>>,
    pub description: Option<Seq<char>>,
    pub masters: Seq<Seq<char>>,
}

impl DeepView for PluginHeader {
    type V = PluginHeaderM;

    open spec fn deep_view(&self) -> PluginHeaderM {
        PluginHeaderM {
            version_bits: self.version_bits,
            num_records_and_groups: self.num_records_and_groups,
            next_object_id: self.next_object_id,
            author: self.author.deep_view(),
            description: self.description.deep_view(),
            masters: self.masters.deep_view(),
        }
    }
}

/// A decoded world record: its form id and mandatory display name.
#[derive(Debug, Clone)]
pub struct World {
    /// Form id relative to this file; the top byte indexes the master list
    /// of the plugin header.
    pub form_id: u32,
    pub editor_id: String,
}

/// Mathematical value of a decoded world record.
pub ghost struct WorldM {
    pub form_id: u32,
    pub editor_id: Seq<char>,
}

impl DeepView for World {
    type V = WorldM;

    open spec fn deep_view(&self) -> WorldM {
        WorldM { form_id: self.form_id, editor_id: self.editor_id@ }
    }
}

/// A decoded cell record. The grid coordinates are present only for
/// exterior cells, and either both or neither of `x` and `y` is set.
#[derive(Debug, Clone)]
pub struct Cell {
    pub form_id: u32,
    pub editor_id: Option<String>,
    pub x: Option<i32>,
    pub y: Option<i32>,
    /// Form id of the enclosing world record, if traversal was lexically
    /// inside a world's subtree when this cell was found.
    pub world_form_id: Option<u32>,
    /// Whether this cell stores the persistent references of its world.
    pub is_persistent: bool,
}

/// Mathematical value of a decoded cell record.
pub ghost struct CellM {
    pub form_id: u32,
    pub editor_id: Option<Seq<char>>,
    pub x: Option<i32>,
    pub y: Option<i32>,
    pub world_form_id: Option<u32>,
    pub is_persistent: bool,
}

impl DeepView for Cell {
    type V = CellM;

    open spec fn deep_view(&self) -> CellM {
        CellM {
            form_id: self.form_id,
            editor_id: self.editor_id.deep_view(),
            x: self.x,
            y: self.y,
            world_form_id: self.world_form_id,
            is_persistent: self.is_persistent,
        }
    }
}

/// A cell record whose header has been decoded but whose payload is still
/// raw, and possibly compressed.
#[derive(Debug)]
pub struct UnparsedCell {
    pub form_id: u32,
    pub world_form_id: Option<u32>,
    pub is_compressed: bool,
    pub is_persistent: bool,
    pub data: Vec<u8>,
}

/// Mathematical value of an undecoded cell record.
pub ghost struct UnparsedCellM {
    pub form_id: u32,
    pub world_form_id: Option<u32>,
    pub is_compressed: bool,
    pub is_persistent: bool,
    pub data: Seq<u8>,
}

impl DeepView for UnparsedCell {
    type V = UnparsedCellM;

    open spec fn deep_view(&self) -> UnparsedCellM {
        UnparsedCellM {
            form_id: self.form_id,
            world_form_id: self.world_form_id,
            is_compressed: self.is_compressed,
            is_persistent: self.is_persistent,
            data: self.data@,
        }
    }
}

/// A fully decoded plugin file: its header, worlds and cells.
#[derive(Debug)]
pub struct Plugin {
    pub header: PluginHeader,
    pub worlds: Vec<World>,
    pub cells: Vec<Cell>,
}

/// Mathematical value of a decoded plugin.
pub ghost struct PluginM {
    pub header: PluginHeaderM,
    pub worlds: Seq<WorldM>,
    pub cells: Seq<CellM>,
}

impl DeepView for Plugin {
    type V = PluginM;

    open spec fn deep_view(&self) -> PluginM {
        PluginM {
            header: self.header.deep_view(),
            worlds: self.worlds.deep_view(),
            cells: self.cells.deep_view(),
        }
    }
}

impl PartialEq for World {
    fn eq(&self, other: &World) -> (r: bool) {
        self.form_id == other.form_id && self.editor_id == other.editor_id
    }
}

impl vstd::std_specs::cmp::PartialEqSpecImpl for World {
    open spec fn obeys_eq_spec() -> bool {
        true
    }

    open spec fn eq_spec(&self, other: &World) -> bool {
        self.deep_view() == other.deep_view()
    }
}

impl PartialEq for Cell {
    fn eq(&self, other: &Cell) -> (r: bool) {
        let editor_eq = match (&self.editor_id, &other.editor_id) {
            (None, None) => true,
            (Some(a), Some(b)) => *a == *b,
            _ => false,
        };
        self.form_id == other.form_id && editor_eq && self.x == other.x && self.y == other.y
            && self.world_form_id == other.world_form_id && self.is_persistent
            == other.is_persistent
    }
}

impl vstd::std_specs::cmp::PartialEqSpecImpl for Cell {
    open spec fn obeys_eq_spec() -> bool {
        true
    }

    open spec fn eq_spec(&self, other: &Cell) -> bool {
        self.deep_view() == other.deep_view()
    }
}

/// Compares two string lists element for element.
fn string_vecs_equal(a: &Vec<String>, b: &Vec<String>) -> (r: bool)
    ensures
        r == (a.deep_view() == b.deep_view()),
{
    if a.len() != b.len() {
        proof {
            assert(a.deep_view().len() == a@.len());
            assert(b.deep_view().len() == b@.len());
        }
        return false;
    }
    let mut i: usize = 0;
    while i < a.len()
        invariant
            0 <= i <= a@.len(),
            a@.len() == b@.len(),
            forall|j: int| 0 <= j < i ==> a.deep_view()[j] == b.deep_view()[j],
        decreases a@.len() - i,
    {
        if a[i] == b[i] {
        } else {
            proof {
                assert(a.deep_view()[i as int] != b.deep_view()[i as int]);
            }
            return false;
        }
        i = i + 1;
    }
    proof {
        assert(a.deep_view() =~= b.deep_view());
    }
    true
}

impl PartialEq for PluginHeader {
    fn eq(&self, other: &PluginHeader) -> (r: bool) {
        let author_eq = match (&self.author, &other.author) {
            (None, None) => true,
            (Some(a), Some(b)) => *a == *b,
            _ => false,
        };
        let description_eq = match (&self.description, &other.description) {
            (None, None) => true,
            (Some(a), Some(b)) => *a == *b,
            _ => false,
        };
        self.version_bits == other.version_bits && self.num_records_and_groups
            == other.num_records_and_groups && self.next_object_id == other.next_object_id
            && author_eq && description_eq && string_vecs_equal(&self.masters, &other.masters)
    }
}

impl vstd::std_specs::cmp::PartialEqSpecImpl for PluginHeader {
    open spec fn obeys_eq_spec() -> bool {
        true
    }

    open spec fn eq_spec(&self, other: &PluginHeader) -> bool {
        self.deep_view() == other.deep_view()
    }
}

impl PartialEq for Plugin {
    fn eq(&self, other: &Plugin) -> (r: bool) {
        let r = self.header == other.header && self.worlds == other.worlds && self.cells
            == other.cells;
        proof {
            let wa = self.worlds.deep_view();
            let wb = other.worlds.deep_view();
            if self.worlds@.len() == other.worlds@.len() {
                if forall|i: int|
                    0 <= i < self.worlds@.len() ==> (#[trigger] self.worlds@[i]).eq_spec(
                        &other.worlds@[i],
                    ) {
                    assert(wa =~= wb);
                } else {
                    let i = choose|i: int|
                        0 <= i < self.worlds@.len() && !(#[trigger] self.worlds@[i]).eq_spec(
                            &other.worlds@[i],
                        );
                    assert(wa[i] != wb[i]);
                }
            } else {
                assert(wa.len() != wb.len());
            }
            let ca = self.cells.deep_view();
            let cb = other.cells.deep_view();
            if self.cells@.len() == other.cells@.len() {
                if forall|i: int|
                    0 <= i < self.cells@.len() ==> (#[trigger] self.cells@[i]).eq_spec(
                        &other.cells@[i],
                    ) {
                    assert(ca =~= cb);
                } else {
                    let i = choose|i: int|
                        0 <= i < self.cells@.len() && !(#[trigger] self.cells@[i]).eq_spec(
                            &other.cells@[i],
                        );
                    assert(ca[i] != cb[i]);
                }
            } else {
                assert(ca.len() != cb.len());
            }
        }
        r
    }
}

impl vstd::std_specs::cmp::PartialEqSpecImpl for Plugin {
    open spec fn obeys_eq_spec() -> bool {
        true
    }

    open spec fn eq_spec(&self, other: &Plugin) -> bool {
        self.deep_view() == other.deep_view()
    }
}

/// Decoded group header. The declared `size` counts the whole subtree,
/// the 24 header bytes among them; `label` keeps the raw four bytes packed
/// little-endian, compared byte-for-byte and never decoded as text.
#[derive(Debug, Clone, Copy, PartialEq, Eq, Structural)]
pub struct GroupHeader {
    pub size: u32,
    pub label: u32,
    pub group_type: i32,
    pub timestamp: u16,
    pub version_control_info: u16,
}

/// Decoded record header. `size` counts the payload only, the 24 header
/// bytes excluded; `flags` has unknown bits already masked off.
#[derive(Debug, Clone, Copy, PartialEq, Eq, Structural)]
pub struct RecordHeader {
    pub record_type: u32,
    pub size: u32,
    pub flags: u32,
    pub id: u32,
    pub timestamp: u16,
    pub version_control_info: u16,
    pub version: u16,
}

/// Decoded field header: a four-byte tag and a 16-bit declared size.
#[derive(Debug, Clone, Copy, PartialEq, Eq, Structural)]
pub struct FieldHeader {
    pub field_type: u32,
    pub size: u16,
}

/// What the next 24 bytes of a stream turned out to be.
#[derive(Debug, Clone, Copy, PartialEq, Eq, Structural)]
pub enum HeaderItem {
    Group(GroupHeader),
    Record(RecordHeader),
}

} // verus!
