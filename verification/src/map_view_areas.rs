use vstd::prelude::*;

use crate::position::{clamp_u16, rect, rect_fits, Area, Position, build_rectangular_area};

verus! {

/// The areas involved in drawing a map: the whole map, where on screen it is drawn, and which
/// part of the map (in map co-ordinates) that screen area shows.
#[derive(Copy, Clone, Debug)]
pub struct MapViewAreas {
    pub map_area: Area,
    pub map_view_area: Area,
    pub map_display_area: Area,
}

/// The start of the displayed part of the map: the centre moved back by half the view's size on
/// each axis, stopping at zero.
pub open spec fn display_start(center: Position, view: Area) -> Position {
    Position {
        x: clamp_u16(center.x - (view.size_x / 2) as int),
        y: clamp_u16(center.y - (view.size_y / 2) as int),
    }
}

impl MapViewAreas {
    /// Whether a map position is within the displayed part of the map.
    pub fn is_position_in_map_display_area(&self, position: Position) -> (r: bool)
        ensures
            r == self.map_display_area.contains_spec(position),
    {
        self.map_display_area.contains(position)
    }

    /// The map position shown at a position of the view: offset by the display area's start.
    pub fn local_to_global(&self, local_position: Position) -> (r: Option<Position>)
        requires
            self.map_display_area.start_position.x + local_position.x <= u16::MAX,
            self.map_display_area.start_position.y + local_position.y <= u16::MAX,
        ensures
            r == Some(Position {
                x: (self.map_display_area.start_position.x + local_position.x) as u16,
                y: (self.map_display_area.start_position.y + local_position.y) as u16,
            }),
    {
        let display_area_start = self.map_display_area.start_position;
        let globalised_x = display_area_start.x + local_position.x;
        let globalised_y = display_area_start.y + local_position.y;
        Some(Position::new(globalised_x, globalised_y))
    }

    /// The view position showing a map position, when that position is both displayed and on
    /// the map.
    pub fn global_to_local(&self, global_position: Position) -> (r: Option<Position>)
        ensures
            r == if self.map_display_area.contains_spec(global_position) && self.map_area.contains_spec(global_position) {
                Some(Position {
                    x: (global_position.x - self.map_display_area.start_position.x) as u16,
                    y: (global_position.y - self.map_display_area.start_position.y) as u16,
                })
            } else {
                None::<Position>
            },
    {
        let map_display_area = self.map_display_area;
        if map_display_area.contains(global_position) && self.map_area.contains(global_position) {
            let x = global_position.x - map_display_area.start_position.x;
            let y = global_position.y - map_display_area.start_position.y;
            return Some(Position::new(x, y));
        }
        None
    }
}

/// The part of the map to display, centred on `center_position` where the map's edge allows:
/// it starts half the view back from the centre and is as large as the view less the view's own
/// offset.
pub fn calculate_map_display_area(center_position: Position, map_view_area: Area) -> (a: Area)
    requires
        rect_fits(
            display_start(center_position, map_view_area),
            (map_view_area.size_x - map_view_area.start_position.x) as u16,
            (map_view_area.size_y - map_view_area.start_position.y) as u16,
        ),
        map_view_area.size_x >= map_view_area.start_position.x,
        map_view_area.size_y >= map_view_area.start_position.y,
    ensures
        a == rect(
            display_start(center_position, map_view_area),
            (map_view_area.size_x - map_view_area.start_position.x) as u16,
            (map_view_area.size_y - map_view_area.start_position.y) as u16,
        ),
        a.start_position.x == if center_position.x >= map_view_area.size_x / 2 {
            center_position.x - map_view_area.size_x / 2
        } else {
            0
        },
        a.start_position.y == if center_position.y >= map_view_area.size_y / 2 {
            center_position.y - map_view_area.size_y / 2
        } else {
            0
        },
        a.size_x == map_view_area.size_x - map_view_area.start_position.x,
        a.size_y == map_view_area.size_y - map_view_area.start_position.y,
{
    proof {
        lemma_display_area_centred(center_position, map_view_area);
    }
    let half_of_display_area_x: i32 = (map_view_area.get_size_x() / 2) as i32;
    let half_of_display_area_y: i32 = (map_view_area.get_size_y() / 2) as i32;
    let display_area_start = center_position.offset(-half_of_display_area_x, -half_of_display_area_y);
    let display_area_size_x = map_view_area.get_size_x() - map_view_area.start_position.x;
    let display_area_size_y = map_view_area.get_size_y() - map_view_area.start_position.y;
    build_rectangular_area(display_area_start, display_area_size_x, display_area_size_y)
}

/// The displayed part of the map is centred on the given position along each axis, as far as
/// the map's top and left edges allow: its start lies half the view's width (`size_x`) left of
/// the centre and half the view's height (`size_y`) above it, stopping at 0; so, away from
/// those edges, the centre lies half the view's width and height past the start.
pub proof fn lemma_display_area_centred(center: Position, view: Area)
    ensures
        ({
            let s = display_start(center, view);
            &&& s.x == if center.x >= view.size_x / 2 { center.x - view.size_x / 2 } else { 0 }
            &&& s.y == if center.y >= view.size_y / 2 { center.y - view.size_y / 2 } else { 0 }
            &&& center.x >= view.size_x / 2 ==> s.x + view.size_x / 2 == center.x
            &&& center.y >= view.size_y / 2 ==> s.y + view.size_y / 2 == center.y
            &&& s.x <= center.x && s.y <= center.y
        }),
{
}

/// Local and global positions convert back and forth: a displayed map position converted to
/// the view and back is the same position.
pub proof fn lemma_global_local_round_trip(areas: MapViewAreas, global: Position)
    requires
        areas.map_display_area.contains_spec(global),
        areas.map_area.contains_spec(global),
    ensures
        ({
            let local = Position {
                x: (global.x - areas.map_display_area.start_position.x) as u16,
                y: (global.y - areas.map_display_area.start_position.y) as u16,
            };
            (areas.map_display_area.start_position.x + local.x) as u16 == global.x
                && (areas.map_display_area.start_position.y + local.y) as u16 == global.y
        }),
{
}

} // verus!
