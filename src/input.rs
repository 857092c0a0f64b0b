use vstd::prelude::*;

use crate::data::DataHolder;

verus! {

/// Why an input provider refused a playback command.
#[derive(Clone, Copy, Debug, PartialEq, Eq, Structural)]
pub enum ProviderError {
    Failed,
}

/// A source of uniform values (video, camera, picture, MIDI), implemented
/// outside this library. Beats, tempos and times are in ticks.
pub trait InputProvider {
    fn set_name(&mut self, name: &str);

    fn provides(&self) -> Vec<String>;

    fn get(&mut self, uniform_name: &str, invalidate: bool) -> Option<DataHolder>;

    fn set_property(&mut self, property: &str, value: &DataHolder);

    fn set_beat(&mut self, bpm: u64, sync: bool) {
    }

    fn set_time(&mut self, time: u64, sync: bool) {
    }

    fn stop(&mut self) -> Result<(), ProviderError> {
        Ok(())
    }

    fn pause(&mut self) -> Result<(), ProviderError> {
        Ok(())
    }

    fn play(&mut self) -> Result<(), ProviderError> {
        Ok(())
    }
}

} // verus!
