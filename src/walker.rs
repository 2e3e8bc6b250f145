use vstd::prelude::*;

use crate::decimal::{decimal, push_justified, right_justify};
use crate::filter::{set_matches, FilterSet};
use crate::permission::{block_text, mode_block, PermissionBlock};

verus! {

/// What the walk is told to check, and where.
#[derive(Debug, Clone)]
pub struct Args {
    /// Allowed owner, group and permission combinations of directories;
    /// directories are not checked without it.
    pub directory_filter: Option<FilterSet>,
    /// The same for every entry that is not a directory.
    pub file_filter: Option<FilterSet>,
    /// The active policy is not printed before the walk.
    pub silent: bool,
    /// Symbolic links below the root are passed over entirely.
    pub ignore_symlinks: bool,
    /// The root of the walk.
    pub base_dir: String,
}

/// What the walk learnt of one entry. The metadata is that of the entry the
/// path leads to; `is_symlink` says the path itself was a symbolic link.
#[derive(Debug, Clone, Copy, PartialEq, Eq, Structural)]
pub struct EntryInfo {
    pub is_dir: bool,
    pub is_symlink: bool,
    pub owner: u32,
    pub group: u32,
    pub mode: u32,
}

/// What to do with an entry found in a directory.
#[derive(Debug, Clone, Copy, PartialEq, Eq, Structural)]
pub enum ChildStep {
    /// Neither check it nor look into it.
    Skip,
    /// Check it, but never look into it.
    Leaf,
    /// Check it, and look into it if it is a directory.
    Descend,
}

/// The filter set that governs an entry of this kind, if one was given.
pub open spec fn applicable(config: Args, is_dir: bool) -> Option<FilterSet> {
    if is_dir {
        config.directory_filter
    } else {
        config.file_filter
    }
}

pub open spec fn type_char(e: EntryInfo) -> char {
    if e.is_symlink {
        'l'
    } else if e.is_dir {
        'd'
    } else {
        '-'
    }
}

/// The report of an entry: type, permissions, owner and group right-justified
/// in five columns, and the path.
pub open spec fn report_line(e: EntryInfo, path: Seq<char>) -> Seq<char> {
    seq![type_char(e)] + block_text(mode_block(e.mode as nat)) + seq![' '] + right_justify(
        decimal(e.owner as nat),
        5,
    ) + seq![' '] + right_justify(decimal(e.group as nat), 5) + seq![' '] + path
}

/// The report that an entry calls for: one when a filter set governs it and
/// no clause of that set holds of it.
pub open spec fn violation(config: Args, e: EntryInfo, path: Seq<char>) -> Option<Seq<char>> {
    match applicable(config, e.is_dir) {
        None => None,
        Some(set) => if set_matches(set.filters@, e.owner, e.group, mode_block(e.mode as nat)) {
            None
        } else {
            Some(report_line(e, path))
        },
    }
}

pub open spec fn child_step_of(config: Args, is_symlink: bool) -> ChildStep {
    if !is_symlink {
        ChildStep::Descend
    } else if config.ignore_symlinks {
        ChildStep::Skip
    } else {
        ChildStep::Leaf
    }
}

/// Checks one entry against the filter set of its kind and gives the line to
/// report when it satisfies none of its clauses.
pub fn check_object(config: &Args, entry: &EntryInfo, path: &str) -> (r: Option<String>)
    ensures
        match r {
            Some(line) => violation(*config, *entry, path@) == Some(line@),
            None => violation(*config, *entry, path@) is None,
        },
{
    let set = if entry.is_dir {
        &config.directory_filter
    } else {
        &config.file_filter
    };
    match set {
        None => None,
        Some(set) => {
            let perms = PermissionBlock::from_mode(entry.mode);
            if set.matches(entry.owner, entry.group, &perms) {
                return None;
            }
            proof {
                reveal_strlit("l");
                reveal_strlit("d");
                reveal_strlit("-");
                reveal_strlit(" ");
            }
            let mut line = String::new();
            if entry.is_symlink {
                line.append("l");
            } else if entry.is_dir {
                line.append("d");
            } else {
                line.append("-");
            }
            perms.render_into(&mut line);
            line.append(" ");
            push_justified(entry.owner, 5, &mut line);
            line.append(" ");
            push_justified(entry.group, 5, &mut line);
            line.append(" ");
            line.append(path);
            assert(line@ =~= report_line(*entry, path@));
            Some(line)
        },
    }
}

impl Args {
    /// How the walk treats an entry found in a directory: a symbolic link is
    /// never looked into, and is passed over when links are ignored.
    pub fn child_step(&self, is_symlink: bool) -> (r: ChildStep)
        ensures
            r == child_step_of(*self, is_symlink),
    {
        if !is_symlink {
            ChildStep::Descend
        } else if self.ignore_symlinks {
            ChildStep::Skip
        } else {
            ChildStep::Leaf
        }
    }
}

impl EntryInfo {
    /// Whether the walk lists this entry's children: only for a directory
    /// that was not reached through a symbolic link.
    pub fn enumerate_children(&self) -> (r: bool)
        ensures
            r == (self.is_dir && !self.is_symlink),
    {
        self.is_dir && !self.is_symlink
    }
}

} // verus!
