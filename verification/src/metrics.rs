//! Size classes of projects, as they are used to judge scan times.

use vstd::prelude::*;

verus! {

/// How large a project is.
#[derive(Debug, Clone, Copy, PartialEq, Eq, Structural)]
pub enum ProjectSize {
    /// 10 to 50 files.
    Small,
    /// 100 to 500 files.
    Medium,
    /// 1000 files and more.
    Large,
}

impl ProjectSize {
    /// The smallest and the largest number of files that a project of
    /// this size is expected to hold.
    pub open spec fn file_count_range(self) -> (usize, usize) {
        match self {
            ProjectSize::Small => (10, 50),
            ProjectSize::Medium => (100, 500),
            ProjectSize::Large => (1000, 5000),
        }
    }

    /// The smallest and the largest number of files that a project of
    /// this size is expected to hold.
    pub fn expected_file_count(&self) -> (out: (usize, usize))
        ensures
            out == self.file_count_range(),
    {
        match self {
            ProjectSize::Small => (10, 50),
            ProjectSize::Medium => (100, 500),
            ProjectSize::Large => (1000, 5000),
        }
    }
}

} // verus!
