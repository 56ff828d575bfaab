use vstd::prelude::*;

pub mod text;
pub mod ids;
pub mod urls;
pub mod shortcuts;
pub mod labelmap;
pub mod messengers;
pub mod unread;
pub mod tray;
pub mod window;
pub mod downloads;
pub mod system;
pub mod sweep;

verus! {

} // verus!
