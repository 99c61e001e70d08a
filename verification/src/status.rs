use vstd::prelude::*;

verus! {

/// One file's status in a single revision comparison. Every path is relative
/// to the repository root. A rename is one logical event holding both paths.
pub enum FileChange {
    Added { path: String },
    Untracked { path: String },
    Modified { path: String },
    Conflict { path: String },
    Deleted { path: String },
    Renamed { from_path: String, to_path: String },
}

/// The mathematical shape of a [`FileChange`]: the same variants over
/// sequences of characters.
pub ghost enum ChangeView {
    Added { path: Seq<char> },
    Untracked { path: Seq<char> },
    Modified { path: Seq<char> },
    Conflict { path: Seq<char> },
    Deleted { path: Seq<char> },
    Renamed { from_path: Seq<char>, to_path: Seq<char> },
}

impl View for FileChange {
    type V = ChangeView;

    open spec fn view(&self) -> ChangeView {
        match self {
            FileChange::Added { path } => ChangeView::Added { path: path@ },
            FileChange::Untracked { path } => ChangeView::Untracked { path: path@ },
            FileChange::Modified { path } => ChangeView::Modified { path: path@ },
            FileChange::Conflict { path } => ChangeView::Conflict { path: path@ },
            FileChange::Deleted { path } => ChangeView::Deleted { path: path@ },
            FileChange::Renamed { from_path, to_path } => ChangeView::Renamed {
                from_path: from_path@,
                to_path: to_path@,
            },
        }
    }
}

impl ChangeView {
    /// The canonical path of a change: the one path of every plain variant,
    /// and the destination path of a rename.
    pub open spec fn canonical_path(self) -> Seq<char> {
        match self {
            ChangeView::Added { path } => path,
            ChangeView::Untracked { path } => path,
            ChangeView::Modified { path } => path,
            ChangeView::Conflict { path } => path,
            ChangeView::Deleted { path } => path,
            ChangeView::Renamed { to_path, .. } => to_path,
        }
    }
}

impl FileChange {
    /// The canonical path identifying this change.
    pub fn path(&self) -> (r: &String)
        ensures
            r@ == self@.canonical_path(),
    {
        match self {
            FileChange::Added { path } => path,
            FileChange::Untracked { path } => path,
            FileChange::Modified { path } => path,
            FileChange::Conflict { path } => path,
            FileChange::Deleted { path } => path,
            FileChange::Renamed { to_path, .. } => to_path,
        }
    }
}

} // verus!
