use vstd::prelude::*;

verus! {

/// Settings of a run: worker count, the files to read and write, how many times to repeat, and
/// whether to publish metrics.
#[derive(Debug)]
pub struct Config {
    pub n_threads: usize,
    pub input_file: Option<String>,
    pub encrypted_file: Option<String>,
    pub decrypted_file: Option<String>,
    pub repeat: usize,
    pub publish_metrics: bool,
}

} // verus!
