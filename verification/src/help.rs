use vstd::prelude::*;

use crate::game::InputState;

verus! {

/// A key and what it does.
#[derive(Copy, Clone, PartialEq, Eq, Debug)]
pub struct Keybinding {
    pub key: &'static str,
    pub text: &'static str,
}

/// When a key binding is shown.
#[derive(Copy, Clone, PartialEq, Eq, Structural, Debug)]
pub enum KeybindingContext {
    /// Whenever the cheat menu is closed.
    NonCheatMenu,
    /// While a stack to move from is chosen.
    SelectSource,
    /// While a stack to move to is chosen.
    SelectDestination,
    /// While the cheat menu is open.
    CheatMenu,
}

/// Whether the bindings of `ctx` are shown in input state `state`.
pub open spec fn shown_in(state: InputState, ctx: KeybindingContext) -> bool {
    match state {
        InputState::SelectSource => ctx == KeybindingContext::NonCheatMenu || ctx
            == KeybindingContext::SelectSource,
        InputState::SelectDestination(_) => ctx == KeybindingContext::NonCheatMenu || ctx
            == KeybindingContext::SelectDestination,
        InputState::CheatMenu => ctx == KeybindingContext::CheatMenu,
    }
}

/// The table of key bindings: key, text and context, in the order in which they are shown.
pub open spec fn keybinding_table() -> Seq<(Seq<char>, Seq<char>, KeybindingContext)> {
    seq![
        ("[0-9]"@, "Select a row to move cards from"@, KeybindingContext::SelectSource),
        ("[0-9]"@, "Select a row to move cards to"@, KeybindingContext::SelectDestination),
        ("[0-9]"@, "Select a cheat to apply"@, KeybindingContext::SelectDestination),
        ("[Enter]"@, "Deal row of cards"@, KeybindingContext::NonCheatMenu),
        ("[u]"@, "Undo"@, KeybindingContext::NonCheatMenu),
        ("[c]"@, "Quit"@, KeybindingContext::NonCheatMenu),
        ("[q]"@, "Quit"@, KeybindingContext::NonCheatMenu),
        ("[C]"@, "Cheats"@, KeybindingContext::NonCheatMenu),
        ("[R]"@, "Restart"@, KeybindingContext::NonCheatMenu),
        ("[0-9]"@, "Select a cheat"@, KeybindingContext::CheatMenu),
        ("[q]"@, "Exit menu"@, KeybindingContext::CheatMenu),
        ("[esc]"@, "Exit menu"@, KeybindingContext::CheatMenu),
    ]
}

/// The key and text of the bindings shown in `state`, in the order of the table.
pub open spec fn shown_keybindings(state: InputState) -> Seq<(Seq<char>, Seq<char>)> {
    keybinding_table().filter(
        |e: (Seq<char>, Seq<char>, KeybindingContext)| shown_in(state, e.2),
    ).map_values(|e: (Seq<char>, Seq<char>, KeybindingContext)| (e.0, e.1))
}

/// The view of a list of bindings: key and text of each.
pub open spec fn keybindings_view(kbs: Seq<Keybinding>) -> Seq<(Seq<char>, Seq<char>)> {
    kbs.map_values(|kb: Keybinding| (kb.key@, kb.text@))
}

fn binding(key: &'static str, text: &'static str, ctx: KeybindingContext) -> (r: (Keybinding, KeybindingContext))
    ensures
        r.0.key@ == key@,
        r.0.text@ == text@,
        r.1 == ctx,
{
    (Keybinding { key, text }, ctx)
}

/// The table of key bindings.
fn keybindings() -> (table: Vec<(Keybinding, KeybindingContext)>)
    ensures
        table@.map_values(|e: (Keybinding, KeybindingContext)| (e.0.key@, e.0.text@, e.1)) == keybinding_table(),
{
    let table = vec![
        binding("[0-9]", "Select a row to move cards from", KeybindingContext::SelectSource),
        binding("[0-9]", "Select a row to move cards to", KeybindingContext::SelectDestination),
        binding("[0-9]", "Select a cheat to apply", KeybindingContext::SelectDestination),
        binding("[Enter]", "Deal row of cards", KeybindingContext::NonCheatMenu),
        binding("[u]", "Undo", KeybindingContext::NonCheatMenu),
        binding("[c]", "Quit", KeybindingContext::NonCheatMenu),
        binding("[q]", "Quit", KeybindingContext::NonCheatMenu),
        binding("[C]", "Cheats", KeybindingContext::NonCheatMenu),
        binding("[R]", "Restart", KeybindingContext::NonCheatMenu),
        binding("[0-9]", "Select a cheat", KeybindingContext::CheatMenu),
        binding("[q]", "Exit menu", KeybindingContext::CheatMenu),
        binding("[esc]", "Exit menu", KeybindingContext::CheatMenu),
    ];
    assert(table@.map_values(|e: (Keybinding, KeybindingContext)| (e.0.key@, e.0.text@, e.1)) =~= keybinding_table());
    table
}

fn is_shown(state: InputState, ctx: KeybindingContext) -> (b: bool)
    ensures
        b == shown_in(state, ctx),
{
    match state {
        InputState::SelectSource => match ctx {
            KeybindingContext::NonCheatMenu | KeybindingContext::SelectSource => true,
            _ => false,
        },
        InputState::SelectDestination(_) => match ctx {
            KeybindingContext::NonCheatMenu | KeybindingContext::SelectDestination => true,
            _ => false,
        },
        InputState::CheatMenu => match ctx {
            KeybindingContext::CheatMenu => true,
            _ => false,
        },
    }
}

/// The key bindings shown in `state`, in the order of the table.
pub fn get_keybindings(state: InputState) -> (kbs: Vec<Keybinding>)
    ensures
        keybindings_view(kbs@) == shown_keybindings(state),
{
    let table = keybindings();
    let ghost entries = keybinding_table();
    let ghost pred = |e: (Seq<char>, Seq<char>, KeybindingContext)| shown_in(state, e.2);
    let ghost proj = |e: (Seq<char>, Seq<char>, KeybindingContext)| (e.0, e.1);
    let mut kbs: Vec<Keybinding> = Vec::new();
    let mut i: usize = 0;
    while i < table.len()
        invariant
            i <= table@.len(),
            table@.map_values(|e: (Keybinding, KeybindingContext)| (e.0.key@, e.0.text@, e.1)) == entries,
            entries == keybinding_table(),
            pred == (|e: (Seq<char>, Seq<char>, KeybindingContext)| shown_in(state, e.2)),
            proj == (|e: (Seq<char>, Seq<char>, KeybindingContext)| (e.0, e.1)),
            keybindings_view(kbs@) == entries.take(i as int).filter(pred).map_values(proj),
        decreases table@.len() - i,
    {
        let (kb, ctx) = table[i];
        assert(entries[i as int] == (kb.key@, kb.text@, ctx));
        assert(entries.take(i as int + 1).drop_last() =~= entries.take(i as int));
        proof {
            let s1 = entries.take(i as int + 1);
            assert(s1.len() > 0);
            assert(s1.last() == entries[i as int]);
            assert(pred(entries[i as int]) == shown_in(state, ctx));
            reveal_with_fuel(Seq::filter, 1);
            assert(s1.filter(pred) == (if pred(s1.last()) {
                s1.drop_last().filter(pred).push(s1.last())
            } else {
                s1.drop_last().filter(pred)
            }));
        }
        let ghost before = kbs@;
        if is_shown(state, ctx) {
            kbs.push(kb);
            let ghost kept = entries.take(i as int).filter(pred);
            assert(entries.take(i as int + 1).filter(pred) =~= kept.push(entries[i as int]));
            assert(kept.push(entries[i as int]).map_values(proj) =~= kept.map_values(proj).push(proj(entries[i as int])));
            assert(keybindings_view(kbs@) =~= keybindings_view(before).push((kb.key@, kb.text@)));
        } else {
            assert(entries.take(i as int + 1).filter(pred) =~= entries.take(i as int).filter(pred));
        }
        assert(keybindings_view(kbs@) =~= entries.take(i as int + 1).filter(pred).map_values(proj));
        i = i + 1;
    }
    assert(entries.take(i as int) =~= entries);
    kbs
}

/// The bindings shown while a stack to move from is chosen: the row choice, then the six that
/// hold outside the cheat menu, in the order of the table.
pub proof fn lemma_keybindings_select_source()
    ensures
        shown_keybindings(InputState::SelectSource) == seq![
            ("[0-9]"@, "Select a row to move cards from"@),
            ("[Enter]"@, "Deal row of cards"@),
            ("[u]"@, "Undo"@),
            ("[c]"@, "Quit"@),
            ("[q]"@, "Quit"@),
            ("[C]"@, "Cheats"@),
            ("[R]"@, "Restart"@),
        ],
{
    reveal_with_fuel(Seq::filter, 13);
    assert(shown_keybindings(InputState::SelectSource) =~= seq![
        ("[0-9]"@, "Select a row to move cards from"@),
        ("[Enter]"@, "Deal row of cards"@),
        ("[u]"@, "Undo"@),
        ("[c]"@, "Quit"@),
        ("[q]"@, "Quit"@),
        ("[C]"@, "Cheats"@),
        ("[R]"@, "Restart"@),
    ]);
}

/// The bindings shown while a stack to move to is chosen, whichever stack was chosen to move
/// from: the two row choices of that context, then the six that hold outside the cheat menu.
pub proof fn lemma_keybindings_select_destination(source: usize)
    ensures
        shown_keybindings(InputState::SelectDestination(source)) == seq![
            ("[0-9]"@, "Select a row to move cards to"@),
            ("[0-9]"@, "Select a cheat to apply"@),
            ("[Enter]"@, "Deal row of cards"@),
            ("[u]"@, "Undo"@),
            ("[c]"@, "Quit"@),
            ("[q]"@, "Quit"@),
            ("[C]"@, "Cheats"@),
            ("[R]"@, "Restart"@),
        ],
{
    reveal_with_fuel(Seq::filter, 13);
    assert(shown_keybindings(InputState::SelectDestination(source)) =~= seq![
        ("[0-9]"@, "Select a row to move cards to"@),
        ("[0-9]"@, "Select a cheat to apply"@),
        ("[Enter]"@, "Deal row of cards"@),
        ("[u]"@, "Undo"@),
        ("[c]"@, "Quit"@),
        ("[q]"@, "Quit"@),
        ("[C]"@, "Cheats"@),
        ("[R]"@, "Restart"@),
    ]);
}

/// The bindings shown in the cheat menu: the cheat choice and the two ways out.
pub proof fn lemma_keybindings_cheat_menu()
    ensures
        shown_keybindings(InputState::CheatMenu) == seq![
            ("[0-9]"@, "Select a cheat"@),
            ("[q]"@, "Exit menu"@),
            ("[esc]"@, "Exit menu"@),
        ],
{
    reveal_with_fuel(Seq::filter, 13);
    assert(shown_keybindings(InputState::CheatMenu) =~= seq![
        ("[0-9]"@, "Select a cheat"@),
        ("[q]"@, "Exit menu"@),
        ("[esc]"@, "Exit menu"@),
    ]);
}

} // verus!
