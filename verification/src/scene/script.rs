//! The place on a node where a script hangs.

use vstd::prelude::*;

verus! {

/// A script on a node.
#[derive(Debug)]
pub struct ScriptSlot {
    /// Where the source is.
    pub path: String,
    /// Disabled scripts are not run.
    pub enabled: bool,
    /// The number of the running instance, or [`ScriptSlot::NO_INSTANCE`].
    pub instance: u32,
    /// The script could not be started and is left alone.
    pub failed: bool,
    /// What the script asked to be saved.
    pub state: String,
}

impl ScriptSlot {
    /// Stands for: no instance yet.
    pub const NO_INSTANCE: u32 = 0xffff_ffff;

    /// A slot whose script was not started yet.
    pub fn new(path: &str) -> (result: Self)
        ensures
            result.path@ == path@,
            result.enabled,
            result.instance == Self::NO_INSTANCE,
            !result.failed,
            result.state@ == Seq::<char>::empty(),
    {
        ScriptSlot {
            path: path.to_owned(),
            enabled: true,
            instance: Self::NO_INSTANCE,
            failed: false,
            state: String::new(),
        }
    }

    /// There is an instance.
    pub open spec fn live(self) -> bool {
        self.instance != Self::NO_INSTANCE
    }

    /// Whether there is an instance.
    pub fn is_live(&self) -> (result: bool)
        ensures
            result == self.live(),
    {
        self.instance != Self::NO_INSTANCE
    }

    /// Hangs another script here. The old instance is given up at the next tick, and so is the old
    /// failure.
    pub fn set_path(&mut self, path: &str)
        ensures
            final(self).path@ == path@,
            *final(self) == (ScriptSlot {
                path: final(self).path,
                instance: Self::NO_INSTANCE,
                failed: false,
                ..*old(self)
            }),
    {
        self.path = path.to_owned();
        self.instance = Self::NO_INSTANCE;
        self.failed = false;
    }
}

impl Default for ScriptSlot {
    /// A slot with nothing in it.
    fn default() -> (result: Self)
        ensures
            result.path@ == Seq::<char>::empty(),
            !result.enabled,
            result.instance == 0,
            !result.failed,
            result.state@ == Seq::<char>::empty(),
    {
        ScriptSlot {
            path: String::new(),
            enabled: false,
            instance: 0,
            failed: false,
            state: String::new(),
        }
    }
}

} // verus!
