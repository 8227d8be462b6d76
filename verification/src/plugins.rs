pub mod combatant;
pub mod statesmachine;
