//! Where the pretrained units are kept, and which dimensions each has.

use vstd::prelude::*;
use vstd::string::StringExecFns;
use crate::config::AtomicConfig;

verus! {

/// The pretrained units.
#[derive(Clone, Copy, Debug, PartialEq, Eq, Structural)]
pub enum Pretrained {
    /// Compares two embeddings of width 32.
    AreEqual,
    /// Detects an embedding of zeros, of width 32.
    IsEmpty,
    /// Tells whether a query appears in a sequence.
    Contains,
    /// Tells whether a sequence holds a value twice.
    HasDuplicate,
}

impl Pretrained {
    /// Name of the unit's file, without directory and extension.
    pub open spec fn spec_stem(self) -> Seq<char> {
        match self {
            Pretrained::AreEqual => "are_equal"@,
            Pretrained::IsEmpty => "is_empty"@,
            Pretrained::Contains => "contains"@,
            Pretrained::HasDuplicate => "has_duplicate"@,
        }
    }

    /// Name of the unit's file, without directory and extension.
    pub fn stem(self) -> (name: &'static str)
        ensures
            name@ == self.spec_stem(),
    {
        match self {
            Pretrained::AreEqual => "are_equal",
            Pretrained::IsEmpty => "is_empty",
            Pretrained::Contains => "contains",
            Pretrained::HasDuplicate => "has_duplicate",
        }
    }

    /// The dimensions that the unit was trained with: the comparison takes
    /// two embeddings of width 32 side by side in the tiny configuration, the
    /// detector of zeros one; the two sequence units take 64 values in the
    /// small configuration. Each gives one output.
    pub fn config(self) -> (cfg: AtomicConfig)
        ensures
            cfg.output_dim == 1,
            cfg.iterations == 2,
            cfg.input_dim == (if self == Pretrained::IsEmpty {
                32usize
            } else {
                64usize
            }),
            cfg.hidden_dim == (if self == Pretrained::AreEqual || self == Pretrained::IsEmpty {
                16usize
            } else {
                24usize
            }),
    {
        match self {
            Pretrained::AreEqual => AtomicConfig::compare(32),
            Pretrained::IsEmpty => AtomicConfig::tiny(32, 1),
            Pretrained::Contains => AtomicConfig::small(64, 1),
            Pretrained::HasDuplicate => AtomicConfig::small(64, 1),
        }
    }
}

/// The directory of the pretrained units under a root directory: `models`.
pub fn models_dir(root: &str) -> (dir: String)
    ensures
        dir@ == root@ + "/models"@,
{
    String::from_str(root).concat("/models")
}

/// The file of a pretrained unit in a directory.
pub fn model_path(dir: &str, model: Pretrained) -> (path: String)
    ensures
        path@ == dir@ + "/"@ + model.spec_stem() + ".safetensors"@,
{
    String::from_str(dir).concat("/").concat(model.stem()).concat(".safetensors")
}

} // verus!
