//! The registry of loaded command packs. Loading replaces the whole content
//! at once; readers get the packs or a copy of them.
use vstd::prelude::*;
use crate::commands::{copy_packs, pack_views, JCommandsList, JCommandsListView};

verus! {

/// The loaded command packs.
pub struct CommandRegistry {
    packs: Vec<JCommandsList>,
}

impl View for CommandRegistry {
    type V = Seq<JCommandsListView>;

    closed spec fn view(&self) -> Seq<JCommandsListView> {
        pack_views(self.packs@)
    }
}

impl CommandRegistry {
    /// An empty registry.
    pub fn new() -> (r: CommandRegistry)
        ensures
            r@ == Seq::<JCommandsListView>::empty(),
    {
        let r = CommandRegistry { packs: Vec::new() };
        assert(r@ =~= Seq::<JCommandsListView>::empty());
        r
    }

    /// Shared access to the loaded packs.
    pub fn read(&self) -> (r: &Vec<JCommandsList>)
        ensures
            pack_views(r@) == self@,
    {
        &self.packs
    }
}

/// What a registry holding `before` holds once `packs` are loaded into it:
/// the packs, and nothing of what it held.
pub open spec fn after_load(
    before: Seq<JCommandsListView>,
    packs: Seq<JCommandsListView>,
) -> Seq<JCommandsListView> {
    packs
}

/// What a snapshot of a registry holding `held` gives.
pub open spec fn snapshot_of(held: Seq<JCommandsListView>) -> Seq<JCommandsListView> {
    held
}

/// Load (replace) the entire registry with the given packs.
pub fn load(reg: &mut CommandRegistry, commands: Vec<JCommandsList>)
    ensures
        final(reg)@ == after_load(old(reg)@, pack_views(commands@)),
{
    reg.packs = commands;
}

/// A copy of all loaded packs.
pub fn get_snapshot(reg: &CommandRegistry) -> (r: Vec<JCommandsList>)
    ensures
        pack_views(r@) == snapshot_of(reg@),
{
    copy_packs(reg.packs.as_slice())
}

/// Whether at least one command pack is loaded.
pub fn is_loaded(reg: &CommandRegistry) -> (r: bool)
    ensures
        r == (reg@.len() > 0),
{
    reg.packs.len() > 0
}

/// Loading replaces what was loaded before: whatever a registry held, after
/// loading `first` and then `second` a snapshot gives exactly `second`, and
/// the registry counts as loaded exactly when `second` has a pack.
pub proof fn law_load_replaces(
    held: Seq<JCommandsListView>,
    first: Seq<JCommandsListView>,
    second: Seq<JCommandsListView>,
)
    ensures
        snapshot_of(after_load(after_load(held, first), second)) == second,
        (after_load(after_load(held, first), second).len() > 0) == (second.len() > 0),
{
}

} // verus!
