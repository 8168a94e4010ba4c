use vstd::prelude::*;

verus! {

/// Where a section goes across the map.
#[derive(PartialEq, Eq, Copy, Clone, Debug, Structural)]
pub enum HorizontalPlacement {
    Left,
    Center,
    Right,
}

/// Where a section goes down the map.
#[derive(PartialEq, Eq, Copy, Clone, Debug, Structural)]
pub enum VerticalPlacement {
    Top,
    Center,
    Bottom,
}

/// A hand-drawn part of a map, placed at one side or the middle.
#[derive(Copy, Clone, Debug)]
pub struct PrefabSection {
    pub template: &'static str,
    pub width: usize,
    pub height: usize,
    pub placement: (HorizontalPlacement, VerticalPlacement),
}

/// A fort along the right edge.
pub fn underground_fort() -> (s: PrefabSection)
    ensures
        s.width == 15,
        s.height == 43,
        s.placement == (HorizontalPlacement::Right, VerticalPlacement::Top),
{
    PrefabSection { template: RIGHT_FORT, width: 15, height: 43, placement: (HorizontalPlacement::Right, VerticalPlacement::Top) }
}

/// Rooms within rooms in the middle of the map.
pub fn nested_rooms() -> (s: PrefabSection)
    ensures
        s.width == 21,
        s.height == 13,
        s.placement == (HorizontalPlacement::Center, VerticalPlacement::Center),
{
    PrefabSection { template: NESTED_ROOMS_MAP, width: 21, height: 13, placement: (HorizontalPlacement::Center, VerticalPlacement::Center) }
}

const RIGHT_FORT: &'static str ="
     #        /
  #######     /
  #     #     /
  #     #######
  #  g        #
  #     #######
  #     #     /
  ### ###     /
    # #       /
    # #       /
    # ##      /
    ^         /
    ^         /
    # ##      /
    # #       /
    # #       /
    # #       /
    # #       /
  ### ###     /
  #     #     /
  #     #     /
  #  g  #     /
  #     #     /
  #     #     /
  ### ###     /
    #         /
    # #       /
    # #       /
    # ##      /
    ^         /
    ^         /
    # ##      /
    # #       /
    # #       /
    # #       /
  ### ###     /
  #     #     /
  #     #######
  #  g        #
  #     #######
  #     #     /
  #######     /
     #        /
";

const NESTED_ROOMS_MAP: &'static str = "\
#########   #########\
# b               b #\
#  ######   ######  #\
#  #             #  #\
#  #  ###   ###  #  #\
#  #  #       #  #  #\
#  #  #       #  #  #\
#  #  #       #  #  #\
#  #  ###   ###  #  #\
#  #    !   !    #  #\
#  ######   ######  #\
#b                 b#\
#########   #########\
";

} // verus!
