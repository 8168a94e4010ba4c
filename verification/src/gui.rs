use vstd::prelude::*;

use crate::components::Position;

verus! {

/// The entries of the main menu.
#[derive(PartialEq, Eq, Copy, Clone, Debug, Structural)]
pub enum MainMenuSelection {
    NewGame,
    LoadGame,
    Quit,
}

/// What the main menu gave back this frame: the entry now highlighted, or the entry chosen.
#[derive(PartialEq, Eq, Copy, Clone, Debug, Structural)]
pub enum MainMenuResult {
    NoSelection { selected: MainMenuSelection },
    Selected { selected: MainMenuSelection },
}

/// What an item menu gave back this frame.
#[derive(PartialEq, Eq, Copy, Clone, Debug, Structural)]
pub enum ItemMenuResult {
    Cancel,
    NoResponse,
    Selected,
}

/// What the game-over screen gave back this frame.
#[derive(PartialEq, Eq, Copy, Clone, Debug, Structural)]
pub enum GameOverResult {
    NoSelection,
    QuitToMenu,
}

/// The keys the menus tell apart.
#[derive(PartialEq, Eq, Copy, Clone, Debug, Structural)]
pub enum MenuKey {
    Escape,
    Up,
    Down,
    Return,
    Other,
}

/// The entry above `s`, wrapping round; the load entry is skipped when there is no save.
pub open spec fn entry_above(s: MainMenuSelection, save_exists: bool) -> MainMenuSelection {
    match s {
        MainMenuSelection::NewGame => MainMenuSelection::Quit,
        MainMenuSelection::LoadGame => MainMenuSelection::NewGame,
        MainMenuSelection::Quit => if save_exists { MainMenuSelection::LoadGame } else { MainMenuSelection::NewGame },
    }
}

/// The entry below `s`, wrapping round; the load entry is skipped when there is no save.
pub open spec fn entry_below(s: MainMenuSelection, save_exists: bool) -> MainMenuSelection {
    match s {
        MainMenuSelection::NewGame => if save_exists { MainMenuSelection::LoadGame } else { MainMenuSelection::Quit },
        MainMenuSelection::LoadGame => MainMenuSelection::Quit,
        MainMenuSelection::Quit => MainMenuSelection::NewGame,
    }
}

/// How the main menu answers a key press (or none) while `selection` is highlighted:
/// Escape chooses Quit, Return chooses the highlighted entry, Up and Down move the
/// highlight, and anything else leaves it.
pub open spec fn menu_answer(selection: MainMenuSelection, key: Option<MenuKey>, save_exists: bool) -> MainMenuResult {
    match key {
        None => MainMenuResult::NoSelection { selected: selection },
        Some(MenuKey::Escape) => MainMenuResult::Selected { selected: MainMenuSelection::Quit },
        Some(MenuKey::Up) => MainMenuResult::NoSelection { selected: entry_above(selection, save_exists) },
        Some(MenuKey::Down) => MainMenuResult::NoSelection { selected: entry_below(selection, save_exists) },
        Some(MenuKey::Return) => MainMenuResult::Selected { selected: selection },
        Some(MenuKey::Other) => MainMenuResult::NoSelection { selected: selection },
    }
}

/// The main menu's answer this frame; `selection` is the highlighted entry when the game
/// is in its menu, `None` otherwise (then the new-game entry comes back highlighted).
pub fn main_menu(selection: Option<MainMenuSelection>, key: Option<MenuKey>, save_exists: bool) -> (r: MainMenuResult)
    ensures
        r == match selection {
            Some(s) => menu_answer(s, key, save_exists),
            None => MainMenuResult::NoSelection { selected: MainMenuSelection::NewGame },
        },
{
    let selection = match selection {
        Some(s) => s,
        None => {
            return MainMenuResult::NoSelection { selected: MainMenuSelection::NewGame };
        },
    };
    match key {
        None => MainMenuResult::NoSelection { selected: selection },
        Some(k) => match k {
            MenuKey::Escape => MainMenuResult::Selected { selected: MainMenuSelection::Quit },
            MenuKey::Up => {
                let mut new_selection = match selection {
                    MainMenuSelection::NewGame => MainMenuSelection::Quit,
                    MainMenuSelection::LoadGame => MainMenuSelection::NewGame,
                    MainMenuSelection::Quit => MainMenuSelection::LoadGame,
                };
                if new_selection == MainMenuSelection::LoadGame && !save_exists {
                    new_selection = MainMenuSelection::NewGame;
                }
                MainMenuResult::NoSelection { selected: new_selection }
            },
            MenuKey::Down => {
                let mut new_selection = match selection {
                    MainMenuSelection::NewGame => MainMenuSelection::LoadGame,
                    MainMenuSelection::LoadGame => MainMenuSelection::Quit,
                    MainMenuSelection::Quit => MainMenuSelection::NewGame,
                };
                if new_selection == MainMenuSelection::LoadGame && !save_exists {
                    new_selection = MainMenuSelection::Quit;
                }
                MainMenuResult::NoSelection { selected: new_selection }
            },
            MenuKey::Return => MainMenuResult::Selected { selected: selection },
            MenuKey::Other => MainMenuResult::NoSelection { selected: selection },
        },
    }
}

/// Without a save, moving the highlight never lands on the load entry, and Up then Down
/// (or Down then Up) from any other entry comes back to it. With a save, Up and Down undo
/// each other from every entry.
pub proof fn lemma_menu_moves(s: MainMenuSelection, save_exists: bool)
    ensures
        !save_exists ==> entry_above(s, save_exists) != MainMenuSelection::LoadGame,
        !save_exists ==> entry_below(s, save_exists) != MainMenuSelection::LoadGame,
        (save_exists || s != MainMenuSelection::LoadGame) ==> entry_below(entry_above(s, save_exists), save_exists) == s,
        (save_exists || s != MainMenuSelection::LoadGame) ==> entry_above(entry_below(s, save_exists), save_exists) == s,
{
}

/// The main menu answers only Escape and Return with a choice: Escape always quits, Return
/// takes the highlighted entry; Up and Down only move the highlight, one entry at a time
/// round the list (new game, load game when there is a save, quit), so that three presses
/// of either come back where they started with a save, two without; no key press and any
/// other key leave the highlight where it is.
pub proof fn lemma_menu_answers(s: MainMenuSelection, save_exists: bool)
    ensures
        menu_answer(s, Some(MenuKey::Escape), save_exists) == (MainMenuResult::Selected { selected: MainMenuSelection::Quit }),
        menu_answer(s, Some(MenuKey::Return), save_exists) == (MainMenuResult::Selected { selected: s }),
        menu_answer(s, None, save_exists) == (MainMenuResult::NoSelection { selected: s }),
        menu_answer(s, Some(MenuKey::Other), save_exists) == (MainMenuResult::NoSelection { selected: s }),
        menu_answer(s, Some(MenuKey::Up), save_exists) is NoSelection,
        menu_answer(s, Some(MenuKey::Down), save_exists) is NoSelection,
        entry_above(s, save_exists) != s,
        entry_below(s, save_exists) != s,
        entry_below(MainMenuSelection::NewGame, save_exists) == if save_exists { MainMenuSelection::LoadGame } else { MainMenuSelection::Quit },
        entry_below(MainMenuSelection::Quit, save_exists) == MainMenuSelection::NewGame,
        save_exists ==> entry_below(entry_below(entry_below(s, save_exists), save_exists), save_exists) == s,
        save_exists ==> entry_above(entry_above(entry_above(s, save_exists), save_exists), save_exists) == s,
        !save_exists && s != MainMenuSelection::LoadGame ==> entry_below(entry_below(s, save_exists), save_exists) == s,
        !save_exists && s != MainMenuSelection::LoadGame ==> entry_above(entry_above(s, save_exists), save_exists) == s,
{
}

/// Whether the highlight is on `option`: menus draw that entry in magenta, the others in
/// white.
pub fn option_highlighted(selection: MainMenuSelection, option: MainMenuSelection) -> (r: bool)
    ensures
        r == (selection == option),
{
    selection == option
}

/// The keys an item list tells apart: Escape, or a letter, given as its place in the
/// alphabet (`-1` for keys that are not letters).
#[derive(PartialEq, Eq, Copy, Clone, Debug, Structural)]
pub enum OptionKey {
    Escape,
    Letter(i32),
}

/// How an item list of `count` entries answers a key press (or none): Escape cancels, the
/// letter of an entry chooses it (its place in the list), anything else is no answer.
pub fn capture_item_options_selection(key: Option<OptionKey>, count: i32) -> (r: (ItemMenuResult, Option<usize>))
    ensures
        r == match key {
            None => (ItemMenuResult::NoResponse, None),
            Some(OptionKey::Escape) => (ItemMenuResult::Cancel, None),
            Some(OptionKey::Letter(i)) => if -1 < i < count {
                (ItemMenuResult::Selected, Some(i as usize))
            } else {
                (ItemMenuResult::NoResponse, None)
            },
        },
{
    match key {
        None => (ItemMenuResult::NoResponse, None),
        Some(k) => match k {
            OptionKey::Escape => (ItemMenuResult::Cancel, None),
            OptionKey::Letter(selection) => {
                if selection > -1 && selection < count {
                    return (ItemMenuResult::Selected, Some(selection as usize));
                }
                (ItemMenuResult::NoResponse, None)
            },
        },
    }
}

/// The game-over screen's answer: any key returns to the main menu.
pub fn game_over(key_pressed: bool) -> (r: GameOverResult)
    ensures
        r == if key_pressed { GameOverResult::QuitToMenu } else { GameOverResult::NoSelection },
{
    if key_pressed {
        GameOverResult::QuitToMenu
    } else {
        GameOverResult::NoSelection
    }
}

/// A visible tile `p` can be aimed at: within `range` of the player in a straight line
/// (compared squared, as whole numbers), and drawn strictly inside the frame of the view
/// whose bounds are `b` (`min_x`, `max_x`, `min_y`, `max_y`).
pub open spec fn aimable(p: Position, player: Position, range: int, b: (i32, i32, i32, i32)) -> bool {
    let dx = p.x - player.x;
    let dy = p.y - player.y;
    let sx = p.x - b.0;
    let sy = p.y - b.2;
    &&& 0 <= range
    &&& dx * dx + dy * dy <= range * range
    &&& 1 < sx < (b.1 - b.0) - 1
    &&& 1 < sy < (b.3 - b.2) - 1
}

/// Coordinates the targeting works with.
pub open spec fn coord_ok(v: int) -> bool {
    -1_000_000 <= v <= 1_000_000
}

/// The tiles the player can aim at, in the order the player sees them.
pub fn target_cells(visible: &Vec<Position>, player: Position, range: i32, b: (i32, i32, i32, i32)) -> (cells: Vec<Position>)
    requires
        forall|i: int| 0 <= i < visible@.len() ==> coord_ok((#[trigger] visible@[i]).x as int) && coord_ok(visible@[i].y as int),
        coord_ok(player.x as int) && coord_ok(player.y as int),
        coord_ok(b.0 as int) && coord_ok(b.1 as int) && coord_ok(b.2 as int) && coord_ok(b.3 as int),
    ensures
        cells@ == visible@.filter(|p: Position| aimable(p, player, range as int, b)),
{
    let mut cells: Vec<Position> = Vec::new();
    let mut i: usize = 0;
    while i < visible.len()
        invariant
            i <= visible@.len(),
            forall|j: int| 0 <= j < visible@.len() ==> coord_ok((#[trigger] visible@[j]).x as int) && coord_ok(visible@[j].y as int),
            coord_ok(player.x as int) && coord_ok(player.y as int),
            coord_ok(b.0 as int) && coord_ok(b.1 as int) && coord_ok(b.2 as int) && coord_ok(b.3 as int),
            cells@ == visible@.subrange(0, i as int).filter(|p: Position| aimable(p, player, range as int, b)),
        decreases visible@.len() - i,
    {
        let p = visible[i];
        proof {
            reveal(Seq::filter);
            assert(visible@.subrange(0, i + 1).drop_last() =~= visible@.subrange(0, i as int));
            assert(visible@.subrange(0, i + 1).last() == p);
        }
        let dx = p.x as i64 - player.x as i64;
        let dy = p.y as i64 - player.y as i64;
        assert(0 <= dx * dx <= 4_000_000_000_000 && 0 <= dy * dy <= 4_000_000_000_000) by (nonlinear_arith)
            requires -2_000_000 <= dx <= 2_000_000, -2_000_000 <= dy <= 2_000_000;
        let r = range as i64;
        assert(0 <= r * r <= 4_611_686_018_427_387_904) by (nonlinear_arith)
            requires -2_147_483_648 <= r <= 2_147_483_647;
        let sx = p.x - b.0;
        let sy = p.y - b.2;
        let near = range >= 0 && dx * dx + dy * dy <= r * r;
        if near && 1 < sx && sx < (b.1 - b.0) - 1 && 1 < sy && sy < (b.3 - b.2) - 1 {
            cells.push(p);
        }
        i = i + 1;
    }
    assert(visible@.subrange(0, visible@.len() as int) =~= visible@);
    cells
}

/// The targeting screen's answer: a click on a tile that can be aimed at chooses it, a
/// click anywhere else cancels, and otherwise there is no answer yet.
pub fn ranged_target(cells: &Vec<Position>, mouse: Position, left_click: bool) -> (r: (ItemMenuResult, Option<Position>))
    ensures
        r == if cells@.contains(mouse) {
            if left_click { (ItemMenuResult::Selected, Some(mouse)) } else { (ItemMenuResult::NoResponse, None) }
        } else {
            if left_click { (ItemMenuResult::Cancel, None) } else { (ItemMenuResult::NoResponse, None) }
        },
{
    let mut valid = false;
    let mut i: usize = 0;
    while i < cells.len()
        invariant
            i <= cells@.len(),
            valid <==> exists|j: int| 0 <= j < i && cells@[j] == mouse,
        decreases cells@.len() - i,
    {
        if cells[i] == mouse {
            valid = true;
        }
        i = i + 1;
    }
    if valid {
        if left_click {
            return (ItemMenuResult::Selected, Some(mouse));
        }
    } else {
        if left_click {
            return (ItemMenuResult::Cancel, None);
        }
    }
    (ItemMenuResult::NoResponse, None)
}

/// A word a tooltip uses for an attribute bonus.
#[derive(PartialEq, Eq, Copy, Clone, Debug, Structural)]
pub enum AttributeWord {
    Weak,
    Strong,
    Clumsy,
    Agile,
    Unhealthy,
    Healthy,
    Dumb,
    Smart,
}

/// The word as shown, with its full stop and space.
pub open spec fn word_text(w: AttributeWord) -> &'static str {
    match w {
        AttributeWord::Weak => "Weak. ",
        AttributeWord::Strong => "Strong. ",
        AttributeWord::Clumsy => "Clumsy. ",
        AttributeWord::Agile => "Agile. ",
        AttributeWord::Unhealthy => "Unhealthy. ",
        AttributeWord::Healthy => "Healthy. ",
        AttributeWord::Dumb => "Dumb. ",
        AttributeWord::Smart => "Smart. ",
    }
}

impl AttributeWord {
    /// The word as shown, with its full stop and space.
    pub fn text(&self) -> (t: &'static str)
        ensures
            t == word_text(*self),
    {
        match *self {
            AttributeWord::Weak => "Weak. ",
            AttributeWord::Strong => "Strong. ",
            AttributeWord::Clumsy => "Clumsy. ",
            AttributeWord::Agile => "Agile. ",
            AttributeWord::Unhealthy => "Unhealthy. ",
            AttributeWord::Healthy => "Healthy. ",
            AttributeWord::Dumb => "Dumb. ",
            AttributeWord::Smart => "Smart. ",
        }
    }
}

/// The word for one bonus: the low word below zero, the high word above, none at zero.
pub open spec fn bonus_word(bonus: i32, low: AttributeWord, high: AttributeWord) -> Seq<AttributeWord> {
    if bonus < 0 { seq![low] } else if bonus > 0 { seq![high] } else { Seq::empty() }
}

/// The words a tooltip gives for the bonuses of might, quickness, fitness and intelligence,
/// in that order. With none, the tooltip reads "Pretty Average".
pub open spec fn attribute_words_spec(might: i32, fitness: i32, quickness: i32, intelligence: i32) -> Seq<AttributeWord> {
    bonus_word(might, AttributeWord::Weak, AttributeWord::Strong)
        + bonus_word(quickness, AttributeWord::Clumsy, AttributeWord::Agile)
        + bonus_word(fitness, AttributeWord::Unhealthy, AttributeWord::Healthy)
        + bonus_word(intelligence, AttributeWord::Dumb, AttributeWord::Smart)
}

fn push_bonus_word(words: &mut Vec<AttributeWord>, bonus: i32, low: AttributeWord, high: AttributeWord)
    ensures
        final(words)@ == old(words)@ + bonus_word(bonus, low, high),
{
    if bonus < 0 {
        words.push(low);
    } else if bonus > 0 {
        words.push(high);
    }
    assert(words@ =~= old(words)@ + bonus_word(bonus, low, high));
}

/// The attribute words of a tooltip, from the bonuses of the creature's attributes.
pub fn attribute_words(might: i32, fitness: i32, quickness: i32, intelligence: i32) -> (words: Vec<AttributeWord>)
    ensures
        words@ == attribute_words_spec(might, fitness, quickness, intelligence),
{
    let mut words: Vec<AttributeWord> = Vec::new();
    push_bonus_word(&mut words, might, AttributeWord::Weak, AttributeWord::Strong);
    push_bonus_word(&mut words, quickness, AttributeWord::Clumsy, AttributeWord::Agile);
    push_bonus_word(&mut words, fitness, AttributeWord::Unhealthy, AttributeWord::Healthy);
    push_bonus_word(&mut words, intelligence, AttributeWord::Dumb, AttributeWord::Smart);
    assert(words@ =~= attribute_words_spec(might, fitness, quickness, intelligence));
    words
}

} // verus!
