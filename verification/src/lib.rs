use vstd::prelude::*;

pub mod cards;
pub mod game;
pub mod help;
pub mod history;

verus! {
}
