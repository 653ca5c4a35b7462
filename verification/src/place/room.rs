//! The `Place` enum and its room content.
//!
//! [`Place`] exposes the place surface — `id`, `region`, `title`, `describe`,
//! `neighbor`, `occupants`, `visible_places` — as inherent methods that match
//! on the variant and delegate to the variant's data. The only variant is
//! [`Room`](Place::Room).

use vstd::prelude::*;
use crate::entity::EntityId;
use crate::region::RegionId;
use crate::side_tables::location::LocationOf;
use super::id::PlaceId;

verus! {

/// A direction an exit can lead in: the cardinal four, and vertical exits.
#[derive(Debug, Clone, Copy, PartialEq, Eq, Structural, Hash)]
pub enum Direction {
    North,
    East,
    South,
    West,
    Up,
    Down,
}

/// A rendered description of a place as seen by a viewer.
#[derive(Debug, Clone, PartialEq, Eq)]
pub struct Description(String);

impl View for Description {
    type V = Seq<char>;

    closed spec fn view(&self) -> Seq<char> {
        self.0@
    }
}

impl Description {
    /// Wraps rendered description text.
    pub fn new(text: &str) -> (r: Self)
        ensures
            r@ == text@,
    {
        Description(text.to_owned())
    }

    /// Returns the description text.
    pub fn as_str(&self) -> (r: &str)
        ensures
            r@ == self@,
    {
        self.0.as_str()
    }
}

/// A place's short name, like "Town Square", distinct from the prose
/// [`Description`].
#[derive(Debug, Clone, PartialEq, Eq)]
pub struct Title(String);

impl View for Title {
    type V = Seq<char>;

    closed spec fn view(&self) -> Seq<char> {
        self.0@
    }
}

impl Title {
    /// Wraps title text.
    pub fn new(text: &str) -> (r: Self)
        ensures
            r@ == text@,
    {
        Title(text.to_owned())
    }

    /// Returns the title text.
    pub fn as_str(&self) -> (r: &str)
        ensures
            r@ == self@,
    {
        self.0.as_str()
    }
}

/// Authored static content of a room: its identity, optional title,
/// description, exits (one optional neighbour per [`Direction`]), and its
/// visibility set.
#[derive(Debug, Clone)]
pub struct RoomData {
    id: PlaceId,
    region: RegionId,
    title: Option<Title>,
    description: Description,
    north: Option<PlaceId>,
    east: Option<PlaceId>,
    south: Option<PlaceId>,
    west: Option<PlaceId>,
    up: Option<PlaceId>,
    down: Option<PlaceId>,
    visible: Vec<PlaceId>,
}

/// A room over plain values.
pub struct RoomModel {
    pub id: PlaceId,
    pub region: RegionId,
    pub title: Option<Seq<char>>,
    pub description: Seq<char>,
    pub exits: Map<Direction, PlaceId>,
    pub visible: Seq<PlaceId>,
}

/// The exits as a map from direction to destination.
pub open spec fn exits_map(
    north: Option<PlaceId>,
    east: Option<PlaceId>,
    south: Option<PlaceId>,
    west: Option<PlaceId>,
    up: Option<PlaceId>,
    down: Option<PlaceId>,
) -> Map<Direction, PlaceId> {
    Map::new(
        |d: Direction| match d {
            Direction::North => north is Some,
            Direction::East => east is Some,
            Direction::South => south is Some,
            Direction::West => west is Some,
            Direction::Up => up is Some,
            Direction::Down => down is Some,
        },
        |d: Direction| match d {
            Direction::North => north->Some_0,
            Direction::East => east->Some_0,
            Direction::South => south->Some_0,
            Direction::West => west->Some_0,
            Direction::Up => up->Some_0,
            Direction::Down => down->Some_0,
        },
    )
}

impl View for RoomData {
    type V = RoomModel;

    closed spec fn view(&self) -> RoomModel {
        RoomModel {
            id: self.id,
            region: self.region,
            title: match self.title {
                Some(t) => Some(t@),
                None => None,
            },
            description: self.description@,
            exits: exits_map(self.north, self.east, self.south, self.west, self.up, self.down),
            visible: self.visible@,
        }
    }
}

impl RoomData {
    /// Creates a room with the given identity and description, no title, no
    /// exits, and an empty visibility set.
    pub fn new(id: PlaceId, region: RegionId, description: Description) -> (r: Self)
        ensures
            r@ == (RoomModel {
                id,
                region,
                title: None,
                description: description@,
                exits: Map::empty(),
                visible: Seq::empty(),
            }),
    {
        let r = RoomData {
            id,
            region,
            title: None,
            description,
            north: None,
            east: None,
            south: None,
            west: None,
            up: None,
            down: None,
            visible: Vec::new(),
        };
        assert(r@.exits =~= Map::<Direction, PlaceId>::empty());
        assert(r@.visible =~= Seq::<PlaceId>::empty());
        r
    }

    /// Sets the exit in `dir` to `to`, replacing any existing exit that way.
    pub fn with_exit(self, dir: Direction, to: PlaceId) -> (r: Self)
        ensures
            r@ == (RoomModel { exits: self@.exits.insert(dir, to), ..self@ }),
    {
        let mut r = self;
        match dir {
            Direction::North => r.north = Some(to),
            Direction::East => r.east = Some(to),
            Direction::South => r.south = Some(to),
            Direction::West => r.west = Some(to),
            Direction::Up => r.up = Some(to),
            Direction::Down => r.down = Some(to),
        }
        assert(r@.exits =~= self@.exits.insert(dir, to));
        r
    }

    /// Replaces the visibility set with `places`.
    pub fn with_visible_places(self, places: Vec<PlaceId>) -> (r: Self)
        ensures
            r@ == (RoomModel { visible: places@, ..self@ }),
    {
        let mut r = self;
        r.visible = places;
        r
    }

    /// Sets the room's short title, replacing any previously set title.
    pub fn with_title(self, title: Title) -> (r: Self)
        ensures
            r@ == (RoomModel { title: Some(title@), ..self@ }),
    {
        let mut r = self;
        r.title = Some(title);
        r
    }

    fn id(&self) -> (r: PlaceId)
        ensures
            r == self@.id,
    {
        self.id
    }

    fn title(&self) -> (r: Option<&Title>)
        ensures
            match r {
                Some(t) => self@.title == Some(t@),
                None => self@.title is None,
            },
    {
        match &self.title {
            Some(t) => Some(t),
            None => None,
        }
    }

    fn region(&self) -> (r: RegionId)
        ensures
            r == self@.region,
    {
        self.region
    }

    fn describe(&self, _viewer: EntityId) -> (r: Description)
        ensures
            r@ == self@.description,
    {
        Description(self.description.0.clone())
    }

    fn neighbor(&self, dir: Direction) -> (r: Option<PlaceId>)
        ensures
            r == (if self@.exits.contains_key(dir) { Some(self@.exits[dir]) } else { None::<PlaceId> }),
    {
        match dir {
            Direction::North => self.north,
            Direction::East => self.east,
            Direction::South => self.south,
            Direction::West => self.west,
            Direction::Up => self.up,
            Direction::Down => self.down,
        }
    }

    fn visible_places(&self) -> (r: Vec<PlaceId>)
        ensures
            r@ == self@.visible,
    {
        let mut out: Vec<PlaceId> = Vec::new();
        let mut i: usize = 0;
        while i < self.visible.len()
            invariant
                i <= self.visible@.len(),
                out@ == self.visible@.take(i as int),
            decreases self.visible@.len() - i,
        {
            out.push(self.visible[i]);
            i = i + 1;
            assert(out@ =~= self.visible@.take(i as int));
        }
        assert(self.visible@.take(self.visible@.len() as int) =~= self.visible@);
        out
    }
}

/// A spatial location. The only variant is [`Room`](Place::Room).
#[derive(Debug, Clone)]
pub enum Place {
    Room(RoomData),
}

impl Place {
    /// The room data of this place, over plain values.
    pub open spec fn room_spec(&self) -> RoomModel {
        match self {
            Place::Room(room) => room@,
        }
    }

    /// This place's stable identifier.
    pub fn id(&self) -> (r: PlaceId)
        ensures
            r == self.room_spec().id,
    {
        match self {
            Place::Room(room) => room.id(),
        }
    }

    /// The region this place belongs to.
    pub fn region(&self) -> (r: RegionId)
        ensures
            r == self.room_spec().region,
    {
        match self {
            Place::Room(room) => room.region(),
        }
    }

    /// This place's short title, or `None` if it was authored without one.
    pub fn title(&self) -> (r: Option<&Title>)
        ensures
            match r {
                Some(t) => self.room_spec().title == Some(t@),
                None => self.room_spec().title is None,
            },
    {
        match self {
            Place::Room(room) => room.title(),
        }
    }

    /// This place's description as seen by `viewer`: the authored text,
    /// whoever the viewer is.
    pub fn describe(&self, viewer: EntityId) -> (r: Description)
        ensures
            r@ == self.room_spec().description,
    {
        match self {
            Place::Room(room) => room.describe(viewer),
        }
    }

    /// The place reached by leaving in `dir`, or `None` if there is no exit.
    pub fn neighbor(&self, dir: Direction) -> (r: Option<PlaceId>)
        ensures
            r == (if self.room_spec().exits.contains_key(dir) { Some(self.room_spec().exits[dir]) } else { None::<PlaceId> }),
    {
        match self {
            Place::Room(room) => room.neighbor(dir),
        }
    }

    /// The entities currently in this place, in arrival order, resolved
    /// through the location table's reverse index (the table, not the place,
    /// is the authority on occupancy).
    pub fn occupants(&self, locations: &LocationOf) -> (r: Vec<EntityId>)
        ensures
            r@ == (if locations.occupancy().contains_key(self.room_spec().id) {
                locations.occupancy()[self.room_spec().id]
            } else {
                Seq::<EntityId>::empty()
            }),
    {
        locations.occupants(self.id())
    }

    /// The places observable from here. Distinct from exits: a place may be
    /// visible without being directly reachable.
    pub fn visible_places(&self) -> (r: Vec<PlaceId>)
        ensures
            r@ == self.room_spec().visible,
    {
        match self {
            Place::Room(room) => room.visible_places(),
        }
    }
}

} // verus!
