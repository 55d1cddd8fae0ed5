//! Settings of the chain state read from a configuration file.
use vstd::prelude::*;

verus! {

#[derive(Clone, Copy, Debug)]
pub struct ChainstateConfigFile {
    /// How many times processing one block is attempted.
    pub max_db_commit_attempts: usize,
    /// The capacity of the pool of orphan blocks.
    pub max_orphan_blocks: usize,
    /// The least and greatest buffer sizes used when importing a bootstrap file.
    pub min_max_bootstrap_import_buffer_sizes: (usize, usize),
}

impl Default for ChainstateConfigFile {
    fn default() -> (r: ChainstateConfigFile)
        ensures
            r.max_db_commit_attempts == 0,
            r.max_orphan_blocks == 0,
            r.min_max_bootstrap_import_buffer_sizes == (0usize, 0usize),
    {
        ChainstateConfigFile {
            max_db_commit_attempts: 0,
            max_orphan_blocks: 0,
            min_max_bootstrap_import_buffer_sizes: (0, 0),
        }
    }
}

impl ChainstateConfigFile {
    /// A configuration with every setting zero.
    pub fn new() -> (r: ChainstateConfigFile)
        ensures
            r.max_db_commit_attempts == 0,
            r.max_orphan_blocks == 0,
            r.min_max_bootstrap_import_buffer_sizes == (0usize, 0usize),
    {
        ChainstateConfigFile::default()
    }

    pub fn with_max_orphan_blocks(self, max_orphan_blocks: usize) -> (r: ChainstateConfigFile)
        ensures
            r == (ChainstateConfigFile { max_orphan_blocks, ..self }),
    {
        ChainstateConfigFile { max_orphan_blocks, ..self }
    }

    pub fn with_bootstrap_buffer_sizes(
        self,
        min_max_bootstrap_import_buffer_sizes: (usize, usize),
    ) -> (r: ChainstateConfigFile)
        ensures
            r == (ChainstateConfigFile { min_max_bootstrap_import_buffer_sizes, ..self }),
    {
        ChainstateConfigFile { min_max_bootstrap_import_buffer_sizes, ..self }
    }
}

} // verus!
