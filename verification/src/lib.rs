use vstd::prelude::*;

pub mod config;
pub mod text;
pub mod picker;
pub mod monitor;
pub mod codecave;
pub mod guard;
pub mod patch;
pub mod trampoline;
pub mod sample;
pub mod win;
pub mod claim;
pub mod overlay;
pub mod pe;
pub mod modules;
pub mod probe;
pub mod dslist;
pub mod globals;
pub mod strmap;
pub mod gml;
pub mod rvamap;
pub mod symbolize;
pub mod parse;
pub mod vocab;
pub mod resolve;
pub mod session;
pub mod survey;
pub mod converge;
pub mod inert;
pub mod switch;
pub mod rvalue;
pub mod press;
pub mod home;
pub mod log;
pub mod breadcrumb;
pub mod instance;
pub mod saves;
pub mod fault;
pub mod meaning;

verus! {
} // verus!
