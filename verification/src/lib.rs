//! Verified core of a Civilization VII mod manager: validating the folder
//! names that art payloads are installed under, locating the game's DLC
//! folder from Steam's library list, cleaning up and scanning `.modinfo`
//! XML, choosing which files of an extracted archive form an art payload,
//! and the bookkeeping around mod folders.

pub mod text;
pub mod folder_name;
pub mod xml;
pub mod dlc_folder;
pub mod art;
pub mod mods;
pub mod archive;
