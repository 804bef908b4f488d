//! Core logic of a terminal and graphical e-book reader.

pub mod strings;
pub mod color;
pub mod html_parser;
pub mod controller;
pub mod common;
pub mod terminal;
pub mod book;
pub mod haodoo;
pub mod config;
pub mod view;
pub mod xi;
pub mod han;
pub mod container;
pub mod loader;
pub mod gui;
pub mod search;
pub mod input_method;
pub mod opener;
pub mod list;
pub mod xhtml;
pub mod epub;
pub mod package;
pub mod dict;
pub mod dom;
