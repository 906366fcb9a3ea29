//! The values the terminal browser is made of: panels, timeline actions,
//! comparison lines, screen rectangles, file tree nodes and rows, and the
//! geometry of what it draws.

use vstd::prelude::*;
use crate::types::FileStatus;

verus! {

/// Which panel has the keyboard.
#[derive(Debug, Clone, Copy, PartialEq, Eq, Structural)]
pub enum Focus {
    Timeline,
    Files,
    Search,
}

/// The kind of a line in a file comparison.
#[derive(Debug, Clone, Copy, PartialEq, Eq, Structural)]
pub enum DiffLineType {
    Same,
    Added,
    Deleted,
    Replaced,
}

/// A line of a file comparison.
#[derive(Debug, Clone)]
pub struct DiffLine {
    pub line_type: DiffLineType,
    pub content: String,
}

/// What a timeline action does.
#[derive(Debug, Clone, Copy, PartialEq, Eq, Structural)]
pub enum ActionKind {
    Restore,
    Delete,
}

/// A restore or delete waiting for confirmation or for the next frame.
#[derive(Debug, Clone)]
pub struct PendingAction {
    pub kind: ActionKind,
    pub item_name: String,
    pub item_idx: usize,
}

/// A rectangle of the screen, in cells.
#[derive(Debug, Clone, Copy, PartialEq, Eq, Structural)]
pub struct Rect {
    pub x: u16,
    pub y: u16,
    pub width: u16,
    pub height: u16,
}

/// The empty rectangle at the origin.
pub open spec fn zero_rect() -> Rect {
    Rect { x: 0, y: 0, width: 0, height: 0 }
}

impl Rect {
    /// The empty rectangle at the origin.
    pub fn zero() -> (r: Rect)
        ensures
            r == zero_rect(),
    {
        Rect { x: 0, y: 0, width: 0, height: 0 }
    }
}

/// Whether the cell (`col`, `row`) lies in `r`.
pub open spec fn in_rect(r: Rect, col: u16, row: u16) -> bool {
    r.x <= col < r.x + r.width && r.y <= row < r.y + r.height
}

/// Decides whether the cell (`col`, `row`) lies in `r`.
pub fn hit(r: Rect, col: u16, row: u16) -> (b: bool)
    ensures
        b == in_rect(r, col, row),
{
    (r.x as u32) <= (col as u32) && (col as u32) < (r.x as u32) + (r.width as u32) && (r.y as u32) <= (row as u32)
        && (row as u32) < (r.y as u32) + (r.height as u32)
}

/// A node of the file tree of a snapshot.
#[derive(Debug)]
pub struct FileTreeNode {
    pub name: String,
    pub full_path: String,
    pub is_dir: bool,
    pub children: Vec<FileTreeNode>,
    pub status: Option<FileStatus>,
    pub file_size: Option<i64>,
}

/// A row of the file tree as displayed.
#[derive(Debug, Clone)]
pub struct VisibleRow {
    pub full_path: String,
    pub is_dir: bool,
    pub depth: usize,
    pub is_expanded: bool,
    pub status: Option<FileStatus>,
    pub file_size: Option<i64>,
    pub name: String,
}

/// `n - 1`, or 0 when `n` is 0.
pub open spec fn last_index(n: int) -> int {
    if n > 0 {
        n - 1
    } else {
        0
    }
}

/// The mark shown before a file row: `+` added, `~` modified, `-` deleted,
/// a space otherwise.
pub open spec fn status_mark(s: Option<FileStatus>) -> Seq<char> {
    match s {
        Some(FileStatus::Added) => "+"@,
        Some(FileStatus::Modified) => "~"@,
        Some(FileStatus::Deleted) => "-"@,
        _ => " "@,
    }
}

/// The mark shown before a file row.
pub fn status_for_entry(row: &VisibleRow) -> (r: &'static str)
    ensures
        r@ == status_mark(row.status),
{
    match row.status {
        Some(FileStatus::Added) => "+",
        Some(FileStatus::Modified) => "~",
        Some(FileStatus::Deleted) => "-",
        Some(FileStatus::Unchanged) => " ",
        None => " ",
    }
}

/// Where the help box goes on a screen of `width` by `height` cells: 56
/// wide at most (and 4 narrower than the screen), 24 high at most (2 lower
/// than the screen) but at least 12, centred.
pub open spec fn help_box(width: u16, height: u16) -> (u16, u16, u16, u16) {
    let w: int = if width >= 60 {
        56
    } else if width >= 4 {
        width - 4
    } else {
        0
    };
    let h0: int = if height >= 26 {
        24
    } else if height >= 2 {
        height - 2
    } else {
        0
    };
    let h: int = if h0 >= 12 {
        h0
    } else {
        12
    };
    let x: int = if width >= w {
        (width - w) / 2
    } else {
        0
    };
    let y: int = if height >= h {
        (height - h) / 2
    } else {
        0
    };
    (x as u16, y as u16, w as u16, h as u16)
}

/// The help box for a screen of `width` by `height` cells, as (x, y, width, height).
pub fn help_area(width: u16, height: u16) -> (r: (u16, u16, u16, u16))
    ensures
        r == help_box(width, height),
{
    let w: u16 = if width >= 60 {
        56
    } else if width >= 4 {
        width - 4
    } else {
        0
    };
    let h0: u16 = if height >= 26 {
        24
    } else if height >= 2 {
        height - 2
    } else {
        0
    };
    let h: u16 = if h0 >= 12 {
        h0
    } else {
        12
    };
    let x: u16 = if width >= w {
        (width - w) / 2
    } else {
        0
    };
    let y: u16 = if height >= h {
        (height - h) / 2
    } else {
        0
    };
    (x, y, w, h)
}

/// The first file row shown in a list `height` cells high (one is its
/// header) when row `selected` is selected: the list scrolls just enough to
/// show the selected row.
pub open spec fn detail_offset(selected: usize, height: u16) -> int {
    let shown: int = if height >= 2 {
        height - 1
    } else {
        1
    };
    if selected >= shown {
        selected - shown + 1
    } else {
        0
    }
}

/// The first file row shown in a list `height` cells high.
pub fn detail_scroll_offset(selected: usize, height: u16) -> (r: usize)
    ensures
        r == detail_offset(selected, height),
{
    let shown: usize = if height >= 2 {
        (height - 1) as usize
    } else {
        1
    };
    if selected >= shown {
        selected - shown + 1
    } else {
        0
    }
}

} // verus!
