//! Reading GML global variables from the live game.
//!
//! Compiled GML reaches a global through a container object with a small
//! virtual interface:
//!
//! ```text
//!   mov rcx, [rip + GLOBAL_CONTAINER]   ; the container
//!   mov rax, [rcx]                      ; its vtable
//!   mov edx, [rip + <variable slot>]    ; the variable id
//!   call qword ptr [rax + 8]            ; -> RValue*
//! ```
//!
//! The container's address is baked, so instead of pretending otherwise the
//! whole pointer chain is validated before use, and the getter must land in
//! the game's code before it may ever be called.
use vstd::prelude::*;

use crate::probe::{answer, get_answer, Access, Step};
use crate::text::{hex_addr, push_hex_addr, push_str};

verus! {

/// RVA of the pointer to the global variable container.
pub const GLOBAL_CONTAINER_RVA: usize = 0x2af7a08;

/// Vtable slot for "read this variable".
pub const VT_GET: usize = 8;

/// The global-variable container and its getter.
pub struct Globals {
    container: usize,
    get: usize,
}

/// The resolution of the container chain, given the answers so far: the
/// container slot, the container's vtable, and the getter in it.
pub open spec fn spec_resolve(base: usize, text: (usize, usize), a: Seq<Option<u64>>) -> Step<
    Result<(usize, usize), Seq<char>>,
> {
    let slot = (base + GLOBAL_CONTAINER_RVA) as usize;
    if base + GLOBAL_CONTAINER_RVA > usize::MAX {
        Step::Done(Err("container slot out of the address space"@))
    } else {
        match answer(a, 0) {
            None => Step::Ask(Access::Value(slot, 8)),
            Some(None) => Step::Done(
                Err("container slot "@ + hex_addr(slot as nat) + " not readable"@),
            ),
            Some(Some(container)) => {
                let container = container as usize;
                let no_container = "container pointer "@ + hex_addr(container as nat)
                    + " not readable"@;
                if container == 0 {
                    Step::Done(Err(no_container))
                } else {
                    match answer(a, 1) {
                        None => Step::Ask(Access::Value(container, 8)),
                        Some(None) => Step::Done(Err(no_container)),
                        Some(Some(vtable)) => {
                            let vtable = vtable as usize;
                            let no_vtable = "vtable "@ + hex_addr(vtable as nat) + " not readable"@;
                            if vtable == 0 || vtable + VT_GET > usize::MAX {
                                Step::Done(Err(no_vtable))
                            } else {
                                match answer(a, 2) {
                                    None => Step::Ask(Access::Value((vtable + VT_GET) as usize, 8)),
                                    Some(None) => Step::Done(Err(no_vtable)),
                                    Some(Some(get)) => {
                                        let get = get as usize;
                                        if get < text.0 || get >= text.1 {
                                            Step::Done(
                                                Err(
                                                    "get-variable "@ + hex_addr(get as nat)
                                                        + " is outside the game's code "@ + hex_addr(
                                                        text.0 as nat,
                                                    ) + ".."@ + hex_addr(text.1 as nat),
                                                ),
                                            )
                                        } else {
                                            Step::Done(Ok((container, get)))
                                        }
                                    },
                                }
                            }
                        },
                    }
                }
            },
        }
    }
}

impl Globals {
    pub closed spec fn view_of(&self) -> (usize, usize) {
        (self.container, self.get)
    }

    /// Resolve and validate the whole chain, given the answers to the reads
    /// asked for so far. `text` bounds the game's code, so a getter that does
    /// not land in it is rejected before it can be called.
    pub fn resolve(base: usize, text: (usize, usize), answers: &[Option<u64>]) -> (r: Step<
        Result<Globals, String>,
    >)
        ensures
            match r {
                Step::Ask(acc) => spec_resolve(base, text, answers@) == Step::<
                    Result<(usize, usize), Seq<char>>,
                >::Ask(acc),
                Step::Done(Ok(g)) => spec_resolve(base, text, answers@) == Step::<
                    Result<(usize, usize), Seq<char>>,
                >::Done(Ok(g.view_of())),
                Step::Done(Err(m)) => spec_resolve(base, text, answers@) == Step::<
                    Result<(usize, usize), Seq<char>>,
                >::Done(Err(m@)),
            },
    {
        if base > usize::MAX - GLOBAL_CONTAINER_RVA {
            return Step::Done(Err("container slot out of the address space".to_owned()));
        }
        let slot = base + GLOBAL_CONTAINER_RVA;
        let container = match get_answer(answers, 0) {
            None => return Step::Ask(Access::Value(slot, 8)),
            Some(None) => {
                let mut m = String::new();
                push_str(&mut m, "container slot ");
                push_hex_addr(&mut m, slot as u64);
                push_str(&mut m, " not readable");
                return Step::Done(Err(m));
            },
            Some(Some(c)) => c as usize,
        };
        let mut no_container = String::new();
        push_str(&mut no_container, "container pointer ");
        push_hex_addr(&mut no_container, container as u64);
        push_str(&mut no_container, " not readable");
        if container == 0 {
            return Step::Done(Err(no_container));
        }
        let vtable = match get_answer(answers, 1) {
            None => return Step::Ask(Access::Value(container, 8)),
            Some(None) => return Step::Done(Err(no_container)),
            Some(Some(v)) => v as usize,
        };
        let mut no_vtable = String::new();
        push_str(&mut no_vtable, "vtable ");
        push_hex_addr(&mut no_vtable, vtable as u64);
        push_str(&mut no_vtable, " not readable");
        if vtable == 0 || vtable > usize::MAX - VT_GET {
            return Step::Done(Err(no_vtable));
        }
        let get = match get_answer(answers, 2) {
            None => return Step::Ask(Access::Value(vtable + VT_GET, 8)),
            Some(None) => return Step::Done(Err(no_vtable)),
            Some(Some(g)) => g as usize,
        };
        if get < text.0 || get >= text.1 {
            let mut m = String::new();
            push_str(&mut m, "get-variable ");
            push_hex_addr(&mut m, get as u64);
            push_str(&mut m, " is outside the game's code ");
            push_hex_addr(&mut m, text.0 as u64);
            push_str(&mut m, "..");
            push_hex_addr(&mut m, text.1 as u64);
            return Step::Done(Err(m));
        }
        Step::Done(Ok(Globals { container, get }))
    }

    pub fn container(&self) -> (c: usize)
        ensures
            c == self.view_of().0,
    {
        self.container
    }

    pub fn getter(&self) -> (g: usize)
        ensures
            g == self.view_of().1,
    {
        self.get
    }
}

} // verus!
