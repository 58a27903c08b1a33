pub mod lisp_atom;
pub mod lisp_exp;
pub mod lisp_arena;

pub use lisp_atom::LispAtom;
pub use lisp_exp::LispExp;
pub use lisp_exp::LispRef;
pub use lisp_arena::LispArena;
