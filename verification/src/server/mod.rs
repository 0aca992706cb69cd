pub mod components;
