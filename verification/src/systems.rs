pub mod characteractions;
pub mod charactercontroller;
pub mod inputresolver;
