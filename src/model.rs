//! Players, cities, units and the views that the rules are stated over.
use vstd::prelude::*;

verus! {

/// Board size chosen for a lobby.
#[derive(Clone, Copy, Debug, PartialEq, Eq, Structural)]
pub enum MapSize {
    Tiny,
    Small,
    Medium,
    Large,
    Huge,
}

pub open spec fn size_radius(m: MapSize) -> u32 {
    match m {
        MapSize::Tiny => 2,
        MapSize::Small => 4,
        MapSize::Medium => 6,
        MapSize::Large => 8,
        MapSize::Huge => 10,
    }
}

impl MapSize {
    pub fn radius(&self) -> (r: u32)
        ensures
            r == size_radius(*self),
    {
        match self {
            MapSize::Tiny => 2,
            MapSize::Small => 4,
            MapSize::Medium => 6,
            MapSize::Large => 8,
            MapSize::Huge => 10,
        }
    }
}

/// Seat colour, assigned cyclically from a five-colour palette.
#[derive(Clone, Copy, Debug, PartialEq, Eq, Structural)]
pub enum PlayerColor {
    Red,
    Blue,
    Green,
    Yellow,
    Purple,
}

pub open spec fn color_of_index(index: nat) -> PlayerColor {
    let k = index % 5;
    if k == 0 {
        PlayerColor::Red
    } else if k == 1 {
        PlayerColor::Blue
    } else if k == 2 {
        PlayerColor::Green
    } else if k == 3 {
        PlayerColor::Yellow
    } else {
        PlayerColor::Purple
    }
}

impl PlayerColor {
    pub fn from_index(index: usize) -> (c: PlayerColor)
        ensures
            c == color_of_index(index as nat),
    {
        let k: usize = index % 5;
        if k == 0 {
            PlayerColor::Red
        } else if k == 1 {
            PlayerColor::Blue
        } else if k == 2 {
            PlayerColor::Green
        } else if k == 3 {
            PlayerColor::Yellow
        } else {
            PlayerColor::Purple
        }
    }
}

#[derive(Debug)]
pub struct Player {
    pub id: String,
    pub name: String,
    pub color: PlayerColor,
}

pub struct PlayerView {
    pub id: Seq<char>,
    pub name: Seq<char>,
    pub color: PlayerColor,
}

impl View for Player {
    type V = PlayerView;

    open spec fn view(&self) -> PlayerView {
        PlayerView { id: self.id@, name: self.name@, color: self.color }
    }
}

impl Clone for Player {
    fn clone(&self) -> (r: Self)
        ensures
            r == *self,
    {
        Player { id: self.id.clone(), name: self.name.clone(), color: self.color }
    }
}

#[derive(Debug)]
pub struct City {
    pub id: String,
    pub owner_id: String,
    pub q: i32,
    pub r: i32,
    pub name: String,
    pub is_capitol: bool,
    pub produced_this_turn: bool,
}

pub struct CityView {
    pub id: Seq<char>,
    pub owner_id: Seq<char>,
    pub q: i32,
    pub r: i32,
    pub name: Seq<char>,
    pub is_capitol: bool,
    pub produced_this_turn: bool,
}

impl View for City {
    type V = CityView;

    open spec fn view(&self) -> CityView {
        CityView {
            id: self.id@,
            owner_id: self.owner_id@,
            q: self.q,
            r: self.r,
            name: self.name@,
            is_capitol: self.is_capitol,
            produced_this_turn: self.produced_this_turn,
        }
    }
}

impl Clone for City {
    fn clone(&self) -> (r: Self)
        ensures
            r == *self,
    {
        City {
            id: self.id.clone(),
            owner_id: self.owner_id.clone(),
            q: self.q,
            r: self.r,
            name: self.name.clone(),
            is_capitol: self.is_capitol,
            produced_this_turn: self.produced_this_turn,
        }
    }
}

/// Kinds of unit; each row of its table fixes movement, hit points, attack, defense and cost.
#[derive(Clone, Copy, Debug, PartialEq, Eq, Structural)]
pub enum UnitType {
    Conscript,
}

pub open spec fn type_base_movement(t: UnitType) -> u32 {
    match t {
        UnitType::Conscript => 2,
    }
}

pub open spec fn type_max_hp(t: UnitType) -> u32 {
    match t {
        UnitType::Conscript => 50,
    }
}

pub open spec fn type_attack(t: UnitType) -> u32 {
    match t {
        UnitType::Conscript => 25,
    }
}

pub open spec fn type_defense(t: UnitType) -> u32 {
    match t {
        UnitType::Conscript => 15,
    }
}

pub open spec fn type_cost(t: UnitType) -> u64 {
    match t {
        UnitType::Conscript => 25,
    }
}

impl UnitType {
    pub fn base_movement(&self) -> (m: u32)
        ensures
            m == type_base_movement(*self),
    {
        match self {
            UnitType::Conscript => 2,
        }
    }

    /// Returns (max_hp, attack, defense).
    pub fn stats(&self) -> (s: (u32, u32, u32))
        ensures
            s == (type_max_hp(*self), type_attack(*self), type_defense(*self)),
    {
        match self {
            UnitType::Conscript => (50, 25, 15),
        }
    }

    pub fn cost(&self) -> (c: u64)
        ensures
            c == type_cost(*self),
    {
        match self {
            UnitType::Conscript => 25,
        }
    }
}

#[derive(Debug)]
pub struct Unit {
    pub id: String,
    pub owner_id: String,
    pub unit_type: UnitType,
    pub q: i32,
    pub r: i32,
    pub movement_remaining: u32,
    pub hp: u32,
    pub max_hp: u32,
}

pub struct UnitView {
    pub id: Seq<char>,
    pub owner_id: Seq<char>,
    pub unit_type: UnitType,
    pub q: i32,
    pub r: i32,
    pub movement_remaining: u32,
    pub hp: u32,
    pub max_hp: u32,
}

impl View for Unit {
    type V = UnitView;

    open spec fn view(&self) -> UnitView {
        UnitView {
            id: self.id@,
            owner_id: self.owner_id@,
            unit_type: self.unit_type,
            q: self.q,
            r: self.r,
            movement_remaining: self.movement_remaining,
            hp: self.hp,
            max_hp: self.max_hp,
        }
    }
}

impl Clone for Unit {
    fn clone(&self) -> (r: Self)
        ensures
            r == *self,
    {
        Unit {
            id: self.id.clone(),
            owner_id: self.owner_id.clone(),
            unit_type: self.unit_type,
            q: self.q,
            r: self.r,
            movement_remaining: self.movement_remaining,
            hp: self.hp,
            max_hp: self.max_hp,
        }
    }
}

impl Unit {
    /// A fresh unit at full health with its full movement.
    pub fn new(id: String, owner_id: String, unit_type: UnitType, q: i32, r: i32) -> (u: Unit)
        ensures
            u.id == id,
            u.owner_id == owner_id,
            u.unit_type == unit_type,
            u.q == q,
            u.r == r,
            u.movement_remaining == type_base_movement(unit_type),
            u.hp == type_max_hp(unit_type),
            u.max_hp == type_max_hp(unit_type),
    {
        let (max_hp, _, _) = unit_type.stats();
        Unit {
            id,
            owner_id,
            unit_type,
            q,
            r,
            movement_remaining: unit_type.base_movement(),
            hp: max_hp,
            max_hp,
        }
    }

    pub fn attack(&self) -> (a: u32)
        ensures
            a == type_attack(self.unit_type),
    {
        self.unit_type.stats().1
    }

    pub fn defense(&self) -> (d: u32)
        ensures
            d == type_defense(self.unit_type),
    {
        self.unit_type.stats().2
    }
}

#[derive(Debug)]
pub enum GameStatus {
    InProgress,
    Victory { winner_id: String },
    Finished,
}

pub enum StatusView {
    InProgress,
    Victory(Seq<char>),
    Finished,
}

impl View for GameStatus {
    type V = StatusView;

    open spec fn view(&self) -> StatusView {
        match self {
            GameStatus::InProgress => StatusView::InProgress,
            GameStatus::Victory { winner_id } => StatusView::Victory(winner_id@),
            GameStatus::Finished => StatusView::Finished,
        }
    }
}

impl Clone for GameStatus {
    fn clone(&self) -> (r: Self)
        ensures
            r == *self,
    {
        match self {
            GameStatus::InProgress => GameStatus::InProgress,
            GameStatus::Victory { winner_id } => GameStatus::Victory { winner_id: winner_id.clone() },
            GameStatus::Finished => GameStatus::Finished,
        }
    }
}

/// The view of a sequence of strings.
pub open spec fn str_views(v: Seq<String>) -> Seq<Seq<char>> {
    v.map_values(|s: String| s@)
}

pub open spec fn player_views(v: Seq<Player>) -> Seq<PlayerView> {
    v.map_values(|p: Player| p@)
}

pub open spec fn city_views(v: Seq<City>) -> Seq<CityView> {
    v.map_values(|c: City| c@)
}

pub open spec fn unit_views(v: Seq<Unit>) -> Seq<UnitView> {
    v.map_values(|u: Unit| u@)
}

} // verus!
