mod samples;
mod state;

pub use samples::{keep_newest, lemma_latest_after_push, newest, SampleWindow, BUFFER_CAPACITY};
pub use state::PlayState;
