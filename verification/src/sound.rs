//! A small plugin API: sound effects that a host plays. It shows what a host
//! defines for its plugin libraries to implement against.

use crate::error::Error;
use crate::plugin::Plugin;
use vstd::prelude::*;
use vstd::string::*;

verus! {

/// The engine that plays sounds.
#[derive(Debug, Default)]
pub struct SoundEngine;

/// The stream that a sound is read from.
#[derive(Debug, Default)]
pub struct MediaStream;

/// A sound effect provided by a plugin library.
#[derive(Debug)]
pub struct SoundEffectPlugin {
    id: String,
    engine: SoundEngine,
    media: MediaStream,
}

impl Plugin for SoundEffectPlugin {
    closed spec fn id(&self) -> Seq<char> {
        self.id@
    }

    fn plugin_id(&self) -> (r: &String) {
        &self.id
    }

    fn on_load(&self) -> (r: Result<(), Error>)
        ensures
            r.is_ok(),
    {
        Ok(())
    }

    fn on_unload(&self) -> (r: Result<(), Error>)
        ensures
            r.is_ok(),
    {
        Ok(())
    }
}

impl SoundEffectPlugin {
    /// A sound effect with this plugin identifier.
    pub fn new(id: &str) -> (r: Self)
        ensures
            r.id() == id@,
    {
        SoundEffectPlugin { id: String::from_str(id), engine: SoundEngine, media: MediaStream }
    }

    /// Play the effect. It makes no sound and changes nothing.
    pub fn play(&self) {
    }
}

} // verus!
