//! Verified core of `htldoc`, a tool that builds HTL documents and diploma
//! theses from Markdown, Typst and LaTeX sources with the help of Nix.
//!
//! The library holds the decisions and the text that the tool produces: which
//! source files take part in a build and how they are named, the Nix
//! expressions that are evaluated, the trimming of command output, the
//! selection of commits for a PDF listing and the HTML index of that listing.
//! Running commands, touching the file system and talking to git is left to
//! the program around it.

mod text;

pub mod document;
pub mod gen_listing;
pub mod init;
pub mod utils;
