//! A verified core for an automatic rebase tool: it keeps a set of local
//! topic branches rebased onto the newest possible commit of a mainline
//! branch, leaving alone branches that track an upstream, branches checked
//! out in a worktree, and branches whose last attempt ended in a conflict
//! that is still unresolved.
//!
//! The library holds the logic: parsing the version-control tool's output,
//! the persisted conflict memo, the branch eligibility rules, and the
//! orchestrating state machine that decides which command to issue next.
//! Running the commands themselves is left to the caller, who feeds each
//! command's outcome back into the machine.

pub mod catalog;
pub mod engine;
pub mod memo;
pub mod text;
