//! The identities of the menu items. A page hands them back as they are; what
//! they mean is decided here.

use vstd::prelude::*;

verus! {

pub const ACTIVATE: &'static str = "activate";

pub const MINIMIZE: &'static str = "minimize";

pub const CLOSE: &'static str = "close";

pub const RUNAS: &'static str = "runas";

pub const ADD_SEP: &'static str = "add-separator";

pub const REMOVE: &'static str = "remove";

pub const REVEAL: &'static str = "reveal";

/// Turn an application into a folder.
pub const MAKE_FOLDER: &'static str = "make-folder";

/// Rename a folder.
pub const RENAME: &'static str = "rename";

/// Empty the recycle bin.
pub const EMPTY_BIN: &'static str = "empty-bin";

/// Dissolve a folder; what it holds returns to the top.
pub const DISSOLVE: &'static str = "dissolve-folder";

/// Move an entry out of its folder, to the top.
pub const MOVE_OUT: &'static str = "move-out";

} // verus!
