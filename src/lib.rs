//! A round-robin combat arena: fighters with a weapon, optional armor and a
//! targeting strategy attack their registered enemies turn by turn until every
//! fighter is knocked out (dead, or left without a target).

pub mod arena;
pub mod combatiente;
pub mod estrategia;
