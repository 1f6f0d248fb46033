use spider::cards::{Card, Suit};
use spider::game::{full_stack_removals, Effect, FullStackRemoval, Input, InputState, Step};
use spider::help::get_keybindings;

fn card(suit: Suit, rank: u8, is_facing_up: bool) -> Card {
    Card { suit, rank, is_facing_up }
}

fn full_suit(suit: Suit) -> Vec<Card> {
    (0..13u8).rev().map(|r| card(suit, r, true)).collect()
}

#[test]
fn full_stacks_are_found_stack_by_stack() {
    let mut with_hidden = vec![card(Suit::Clubs, 4, false)];
    with_hidden.extend(full_suit(Suit::Hearts));
    let mut with_open = vec![card(Suit::Clubs, 4, true)];
    with_open.extend(full_suit(Suit::Diamonds));
    let mut short = full_suit(Suit::Spades);
    short.pop();
    let stacks = vec![
        full_suit(Suit::Spades),
        short,
        with_hidden,
        Vec::new(),
        with_open,
    ];
    assert_eq!(
        full_stack_removals(&stacks),
        vec![
            FullStackRemoval { suit: Suit::Spades, stack: 0, flip_card: false },
            FullStackRemoval { suit: Suit::Hearts, stack: 2, flip_card: true },
            FullStackRemoval { suit: Suit::Diamonds, stack: 4, flip_card: false },
        ]
    );
}

#[test]
fn full_stack_needs_thirteen_in_the_last_group() {
    let mut stack = full_suit(Suit::Clubs);
    stack.push(card(Suit::Hearts, 5, true));
    assert_eq!(full_stack_removals(&[stack]), vec![]);
    assert_eq!(full_stack_removals(&[]), vec![]);
}

#[test]
fn row_presses_choose_source_then_destination() {
    let s = InputState::SelectSource.step(Input::Row(3), 0);
    assert_eq!(s, Step { state: InputState::SelectDestination(3), effect: Effect::Nothing, redraw: true });
    let s = s.state.step(Input::Row(7), 0);
    assert_eq!(s, Step { state: InputState::SelectSource, effect: Effect::Move { from: 3, to: 7 }, redraw: true });
}

#[test]
fn deal_needs_ten_cards() {
    let s = InputState::SelectSource.step(Input::Deal, 10);
    assert_eq!(s, Step { state: InputState::SelectSource, effect: Effect::Deal, redraw: true });
    let s = InputState::SelectDestination(2).step(Input::Deal, 9);
    assert_eq!(s, Step { state: InputState::SelectDestination(2), effect: Effect::Nothing, redraw: false });
}

#[test]
fn cheat_menu_and_exit() {
    let s = InputState::SelectSource.step(Input::ShowCheatMenu, 0);
    assert_eq!(s.state, InputState::CheatMenu);
    assert!(s.redraw);
    let c = s.state.step(Input::Row(2), 0);
    assert_eq!(c, Step { state: InputState::SelectSource, effect: Effect::Cheat(2), redraw: false });
    let e = InputState::CheatMenu.step(Input::ExitMenu, 0);
    assert_eq!(e, Step { state: InputState::SelectSource, effect: Effect::Nothing, redraw: true });
    let q = InputState::SelectSource.step(Input::ExitMenu, 0);
    assert_eq!(q.effect, Effect::Quit);
    assert_eq!(InputState::CheatMenu.step(Input::Quit, 0).effect, Effect::Quit);
}

#[test]
fn restart_and_undo_keep_the_input_state() {
    let s = InputState::SelectDestination(4).step(Input::Restart, 0);
    assert_eq!(s, Step { state: InputState::SelectDestination(4), effect: Effect::Restart, redraw: true });
    let u = InputState::CheatMenu.step(Input::Undo, 0);
    assert_eq!(u, Step { state: InputState::CheatMenu, effect: Effect::Undo, redraw: true });
}

fn pairs(state: InputState) -> Vec<(&'static str, &'static str)> {
    get_keybindings(state).iter().map(|kb| (kb.key, kb.text)).collect()
}

#[test]
fn keybindings_per_state() {
    let common = vec![
        ("[Enter]", "Deal row of cards"),
        ("[u]", "Undo"),
        ("[c]", "Quit"),
        ("[q]", "Quit"),
        ("[C]", "Cheats"),
        ("[R]", "Restart"),
    ];
    let mut source = vec![("[0-9]", "Select a row to move cards from")];
    source.extend(common.iter().cloned());
    assert_eq!(pairs(InputState::SelectSource), source);
    let mut dest = vec![
        ("[0-9]", "Select a row to move cards to"),
        ("[0-9]", "Select a cheat to apply"),
    ];
    dest.extend(common.iter().cloned());
    assert_eq!(pairs(InputState::SelectDestination(5)), dest);
    assert_eq!(
        pairs(InputState::CheatMenu),
        vec![("[0-9]", "Select a cheat"), ("[q]", "Exit menu"), ("[esc]", "Exit menu")]
    );
}
