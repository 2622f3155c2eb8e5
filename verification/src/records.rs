use vstd::prelude::*;

verus! {

use crate::vecmap::DeepEq;

/// Exterior world-grid coordinate of a cell.
#[derive(Clone, Copy, PartialEq, Eq, Structural, Debug)]
pub struct CellKey {
    pub x: i32,
    pub y: i32,
}

impl DeepView for CellKey {
    type V = CellKey;

    open spec fn deep_view(&self) -> CellKey {
        *self
    }
}

impl DeepEq for CellKey {
    fn deq(&self, other: &Self) -> (r: bool) {
        self.x == other.x && self.y == other.y
    }

    fn dup(&self) -> (r: Self) {
        *self
    }
}

/// A region's display colour.
#[derive(Clone, Copy, PartialEq, Eq, Structural, Debug)]
pub struct Rgb {
    pub r: u8,
    pub g: u8,
    pub b: u8,
}

impl DeepView for Rgb {
    type V = Rgb;

    open spec fn deep_view(&self) -> Rgb {
        *self
    }
}

impl DeepEq for Rgb {
    fn deq(&self, other: &Self) -> (r: bool) {
        self.r == other.r && self.g == other.g && self.b == other.b
    }

    fn dup(&self) -> (r: Self) {
        *self
    }
}

/// The world translation of one travel destination, in whole world units.
#[derive(Clone, Copy, PartialEq, Eq, Structural, Debug)]
pub struct TravelDest {
    pub x: i64,
    pub y: i64,
}

impl DeepView for TravelDest {
    type V = TravelDest;

    open spec fn deep_view(&self) -> TravelDest {
        *self
    }
}

impl DeepEq for TravelDest {
    fn deq(&self, other: &Self) -> (r: bool) {
        self.x == other.x && self.y == other.y
    }

    fn dup(&self) -> (r: Self) {
        *self
    }
}

/// Composite record identity: the record-type tag and the type-specific
/// editor id (empty for singleton records such as the file header).
#[derive(Debug)]
pub struct RecordIdentity {
    pub tag: String,
    pub id: String,
}

impl RecordIdentity {
    pub fn new(tag: String, id: String) -> (r: Self)
        ensures
            r.deep_view() == (tag@, id@),
    {
        RecordIdentity { tag, id }
    }
}

impl DeepView for RecordIdentity {
    type V = (Seq<char>, Seq<char>);

    open spec fn deep_view(&self) -> (Seq<char>, Seq<char>) {
        (self.tag@, self.id@)
    }
}

impl DeepEq for RecordIdentity {
    fn deq(&self, other: &Self) -> (r: bool) {
        self.tag == other.tag && self.id == other.id
    }

    fn dup(&self) -> (r: Self) {
        RecordIdentity { tag: self.tag.clone(), id: self.id.clone() }
    }
}

/// What the world model reads from an exterior or interior cell record.
#[derive(Debug)]
pub struct CellData {
    pub x: i32,
    pub y: i32,
    pub is_interior: bool,
    pub name: String,
    pub region: Option<String>,
    pub map_color: Option<Rgb>,
    /// Editor ids of the object references placed in the cell.
    pub refs: Vec<String>,
}

#[verifier::ext_equal]
pub ghost struct CellDataV {
    pub x: i32,
    pub y: i32,
    pub is_interior: bool,
    pub name: Seq<char>,
    pub region: Option<Seq<char>>,
    pub map_color: Option<Rgb>,
    pub refs: Seq<Seq<char>>,
}

impl DeepView for CellData {
    type V = CellDataV;

    open spec fn deep_view(&self) -> CellDataV {
        CellDataV {
            x: self.x,
            y: self.y,
            is_interior: self.is_interior,
            name: self.name@,
            region: self.region.deep_view(),
            map_color: self.map_color.deep_view(),
            refs: self.refs.deep_view(),
        }
    }
}

impl DeepEq for CellData {
    fn deq(&self, other: &Self) -> (r: bool) {
        self.x == other.x && self.y == other.y && self.is_interior == other.is_interior
            && self.name == other.name && self.region.deq(&other.region) && self.map_color.deq(
            &other.map_color,
        ) && self.refs.deq(&other.refs)
    }

    fn dup(&self) -> (r: Self) {
        CellData {
            x: self.x,
            y: self.y,
            is_interior: self.is_interior,
            name: self.name.clone(),
            region: self.region.dup(),
            map_color: self.map_color.dup(),
            refs: self.refs.dup(),
        }
    }
}

impl CellData {
    /// The grid coordinate the cell occupies.
    pub fn key(&self) -> (r: CellKey)
        ensures
            r == (CellKey { x: self.deep_view().x, y: self.deep_view().y }),
    {
        CellKey { x: self.x, y: self.y }
    }
}

/// What the world model reads from a landscape record: the grid coordinate
/// and the per-cell height samples.
#[derive(Debug)]
pub struct LandData {
    pub x: i32,
    pub y: i32,
    pub heights: Vec<i8>,
}

#[verifier::ext_equal]
pub ghost struct LandDataV {
    pub x: i32,
    pub y: i32,
    pub heights: Seq<i8>,
}

impl DeepView for LandData {
    type V = LandDataV;

    open spec fn deep_view(&self) -> LandDataV {
        LandDataV { x: self.x, y: self.y, heights: self.heights.deep_view() }
    }
}

impl DeepEq for LandData {
    fn deq(&self, other: &Self) -> (r: bool) {
        self.x == other.x && self.y == other.y && self.heights.deq(&other.heights)
    }

    fn dup(&self) -> (r: Self) {
        LandData { x: self.x, y: self.y, heights: self.heights.dup() }
    }
}

impl LandData {
    /// The grid coordinate the landscape belongs to.
    pub fn key(&self) -> (r: CellKey)
        ensures
            r == (CellKey { x: self.deep_view().x, y: self.deep_view().y }),
    {
        CellKey { x: self.x, y: self.y }
    }
}

/// What the world model reads from a region record.
#[derive(Debug)]
pub struct RegionData {
    pub id: String,
    pub name: String,
    pub map_color: Rgb,
}

#[verifier::ext_equal]
pub ghost struct RegionDataV {
    pub id: Seq<char>,
    pub name: Seq<char>,
    pub map_color: Rgb,
}

impl DeepView for RegionData {
    type V = RegionDataV;

    open spec fn deep_view(&self) -> RegionDataV {
        RegionDataV { id: self.id@, name: self.name@, map_color: self.map_color }
    }
}

impl DeepEq for RegionData {
    fn deq(&self, other: &Self) -> (r: bool) {
        self.id == other.id && self.name == other.name && self.map_color.deq(&other.map_color)
    }

    fn dup(&self) -> (r: Self) {
        RegionData { id: self.id.clone(), name: self.name.clone(), map_color: self.map_color }
    }
}

/// What the travel graph reads from a non-player-character record.
#[derive(Debug)]
pub struct NpcData {
    pub class: String,
    pub travel_destinations: Vec<TravelDest>,
}

#[verifier::ext_equal]
pub ghost struct NpcDataV {
    pub class: Seq<char>,
    pub travel_destinations: Seq<TravelDest>,
}

impl DeepView for NpcData {
    type V = NpcDataV;

    open spec fn deep_view(&self) -> NpcDataV {
        NpcDataV {
            class: self.class@,
            travel_destinations: self.travel_destinations.deep_view(),
        }
    }
}

impl DeepEq for NpcData {
    fn deq(&self, other: &Self) -> (r: bool) {
        self.class == other.class && self.travel_destinations.deq(&other.travel_destinations)
    }

    fn dup(&self) -> (r: Self) {
        NpcData { class: self.class.clone(), travel_destinations: self.travel_destinations.dup() }
    }
}

/// The typed payload of a record. Record types the world model does not
/// read are carried as opaque bytes.
#[derive(Debug)]
pub enum RecordBody {
    Cell(CellData),
    Landscape(LandData),
    Region(RegionData),
    Npc(NpcData),
    Other(Vec<u8>),
}

#[verifier::ext_equal]
pub ghost enum RecordBodyV {
    Cell(CellDataV),
    Landscape(LandDataV),
    Region(RegionDataV),
    Npc(NpcDataV),
    Other(Seq<u8>),
}

impl DeepView for RecordBody {
    type V = RecordBodyV;

    open spec fn deep_view(&self) -> RecordBodyV {
        match self {
            RecordBody::Cell(c) => RecordBodyV::Cell(c.deep_view()),
            RecordBody::Landscape(l) => RecordBodyV::Landscape(l.deep_view()),
            RecordBody::Region(g) => RecordBodyV::Region(g.deep_view()),
            RecordBody::Npc(n) => RecordBodyV::Npc(n.deep_view()),
            RecordBody::Other(b) => RecordBodyV::Other(b.deep_view()),
        }
    }
}

impl DeepEq for RecordBody {
    fn deq(&self, other: &Self) -> (r: bool) {
        match (self, other) {
            (RecordBody::Cell(a), RecordBody::Cell(b)) => a.deq(b),
            (RecordBody::Landscape(a), RecordBody::Landscape(b)) => a.deq(b),
            (RecordBody::Region(a), RecordBody::Region(b)) => a.deq(b),
            (RecordBody::Npc(a), RecordBody::Npc(b)) => a.deq(b),
            (RecordBody::Other(a), RecordBody::Other(b)) => a.deq(b),
            _ => false,
        }
    }

    fn dup(&self) -> (r: Self) {
        match self {
            RecordBody::Cell(c) => RecordBody::Cell(c.dup()),
            RecordBody::Landscape(l) => RecordBody::Landscape(l.dup()),
            RecordBody::Region(g) => RecordBody::Region(g.dup()),
            RecordBody::Npc(n) => RecordBody::Npc(n.dup()),
            RecordBody::Other(b) => RecordBody::Other(b.dup()),
        }
    }
}

/// A record tagged "CELL", "LAND", "REGN" or "NPC_" whose payload does not
/// have the shape that tag promises cannot be projected; the record is
/// skipped, never the whole plugin.
#[derive(Clone, Copy, PartialEq, Eq, Structural, Debug)]
pub enum ConversionFailure {
    WrongShape,
}

/// One typed game-data entry: the type tag, the editor id, and the payload.
#[derive(Debug)]
pub struct Record {
    pub tag: String,
    pub id: String,
    pub body: RecordBody,
}

#[verifier::ext_equal]
pub ghost struct RecordV {
    pub tag: Seq<char>,
    pub id: Seq<char>,
    pub body: RecordBodyV,
}

impl DeepView for Record {
    type V = RecordV;

    open spec fn deep_view(&self) -> RecordV {
        RecordV { tag: self.tag@, id: self.id@, body: self.body.deep_view() }
    }
}

impl DeepEq for Record {
    fn deq(&self, other: &Self) -> (r: bool) {
        self.tag == other.tag && self.id == other.id && self.body.deq(&other.body)
    }

    fn dup(&self) -> (r: Self) {
        Record { tag: self.tag.clone(), id: self.id.clone(), body: self.body.dup() }
    }
}

impl Record {
    /// The record's composite identity.
    pub open spec fn spec_identity(&self) -> (Seq<char>, Seq<char>) {
        (self.tag@, self.id@)
    }

    /// The record's composite identity.
    pub fn identity(&self) -> (r: RecordIdentity)
        ensures
            r.deep_view() == self.spec_identity(),
    {
        RecordIdentity { tag: self.tag.clone(), id: self.id.clone() }
    }

    /// The cell payload, if this record carries one.
    pub fn as_cell(&self) -> (r: Result<&CellData, ConversionFailure>)
        ensures
            match r {
                Ok(c) => self.deep_view().body == RecordBodyV::Cell(c.deep_view()),
                Err(_) => !(self.deep_view().body is Cell),
            },
    {
        match &self.body {
            RecordBody::Cell(c) => Ok(c),
            _ => Err(ConversionFailure::WrongShape),
        }
    }

    /// The landscape payload, if this record carries one.
    pub fn as_landscape(&self) -> (r: Result<&LandData, ConversionFailure>)
        ensures
            match r {
                Ok(l) => self.deep_view().body == RecordBodyV::Landscape(l.deep_view()),
                Err(_) => !(self.deep_view().body is Landscape),
            },
    {
        match &self.body {
            RecordBody::Landscape(l) => Ok(l),
            _ => Err(ConversionFailure::WrongShape),
        }
    }

    /// The region payload, if this record carries one.
    pub fn as_region(&self) -> (r: Result<&RegionData, ConversionFailure>)
        ensures
            match r {
                Ok(g) => self.deep_view().body == RecordBodyV::Region(g.deep_view()),
                Err(_) => !(self.deep_view().body is Region),
            },
    {
        match &self.body {
            RecordBody::Region(g) => Ok(g),
            _ => Err(ConversionFailure::WrongShape),
        }
    }

    /// The non-player-character payload, if this record carries one.
    pub fn as_npc(&self) -> (r: Result<&NpcData, ConversionFailure>)
        ensures
            match r {
                Ok(n) => self.deep_view().body == RecordBodyV::Npc(n.deep_view()),
                Err(_) => !(self.deep_view().body is Npc),
            },
    {
        match &self.body {
            RecordBody::Npc(n) => Ok(n),
            _ => Err(ConversionFailure::WrongShape),
        }
    }
}

/// The identity a record's own fields derive.
pub open spec fn ident_of(r: RecordV) -> (Seq<char>, Seq<char>) {
    (r.tag, r.id)
}

/// The payload a freshly created record of each type carries.
pub open spec fn default_body_v(e: crate::tags::ERecordType) -> RecordBodyV {
    if e == crate::tags::ERecordType::CELL {
        RecordBodyV::Cell(
            CellDataV {
                x: 0,
                y: 0,
                is_interior: false,
                name: Seq::empty(),
                region: None,
                map_color: None,
                refs: Seq::empty(),
            },
        )
    } else if e == crate::tags::ERecordType::LAND {
        RecordBodyV::Landscape(LandDataV { x: 0, y: 0, heights: Seq::empty() })
    } else if e == crate::tags::ERecordType::REGN {
        RecordBodyV::Region(
            RegionDataV { id: Seq::empty(), name: Seq::empty(), map_color: Rgb { r: 0, g: 0, b: 0 } },
        )
    } else if e == crate::tags::ERecordType::NPC_ {
        RecordBodyV::Npc(NpcDataV { class: Seq::empty(), travel_destinations: Seq::empty() })
    } else {
        RecordBodyV::Other(Seq::empty())
    }
}

/// A freshly created record of each type: the type's tag, an empty editor
/// id, and the default payload.
pub open spec fn default_record_v(e: crate::tags::ERecordType) -> RecordV {
    RecordV { tag: e.tag_chars(), id: Seq::empty(), body: default_body_v(e) }
}

/// Creates a new record of the given type with the default payload.
pub fn create(e: crate::tags::ERecordType) -> (r: Record)
    ensures
        r.deep_view() == default_record_v(e),
{
    let tag = e.tag_str().to_owned();
    let body = if e == crate::tags::ERecordType::CELL {
        RecordBody::Cell(
            CellData {
                x: 0,
                y: 0,
                is_interior: false,
                name: String::new(),
                region: None,
                map_color: None,
                refs: Vec::new(),
            },
        )
    } else if e == crate::tags::ERecordType::LAND {
        RecordBody::Landscape(LandData { x: 0, y: 0, heights: Vec::new() })
    } else if e == crate::tags::ERecordType::REGN {
        RecordBody::Region(
            RegionData { id: String::new(), name: String::new(), map_color: Rgb { r: 0, g: 0, b: 0 } },
        )
    } else if e == crate::tags::ERecordType::NPC_ {
        RecordBody::Npc(NpcData { class: String::new(), travel_destinations: Vec::new() })
    } else {
        RecordBody::Other(Vec::new())
    };
    let r = Record { tag, id: String::new(), body };
    proof {
        assert(Seq::<Seq<char>>::empty() =~= Seq::<Seq<char>>::empty());
        assert(r.deep_view().body =~~= default_body_v(e));
    }
    r
}

/// Creates a new record of the type the tag names, if any type matches.
pub fn create_from_tag(tag: &str) -> (r: Option<Record>)
    ensures
        match r {
            Some(rec) => exists|e: crate::tags::ERecordType| #[trigger]
                e.tag_chars() == tag@ && rec.deep_view() == default_record_v(e),
            None => forall|e: crate::tags::ERecordType| #[trigger] e.tag_chars() != tag@,
        },
{
    match crate::tags::ERecordType::from_tag(tag) {
        Some(e) => {
            let rec = create(e);
            proof {
                assert(e.tag_chars() == tag@ && rec.deep_view() == default_record_v(e));
            }
            Some(rec)
        },
        None => None,
    }
}

/// The textual unique id of a record: the tag and the editor id, joined
/// by a comma.
pub open spec fn unique_id_of(tag: Seq<char>, id: Seq<char>) -> Seq<char> {
    tag + ","@ + id
}

/// The textual unique id of a record, as the record browser displays it.
pub fn get_unique_id(record: &Record) -> (r: String)
    ensures
        r@ == unique_id_of(record.tag@, record.id@),
{
    let mut s = record.tag.clone();
    s.append(",");
    s.append(record.id.as_str());
    s
}

/// The textual unique id of an identity.
pub fn unique_id_of_identity(id: &RecordIdentity) -> (r: String)
    ensures
        r@ == unique_id_of(id.tag@, id.id@),
{
    let mut s = id.tag.clone();
    s.append(",");
    s.append(id.id.as_str());
    s
}

} // verus!
