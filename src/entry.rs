//! Directory entries as read from the file system, their display category and color.
use vstd::prelude::*;

verus! {

/// What kind of file an entry is. A symbolic link is reported as such, whatever it points to.
#[derive(Clone, Copy, Debug, PartialEq, Eq, Structural)]
pub enum EntryKind {
    Directory,
    File,
    Symlink,
    Other,
}

/// Metadata of an existing entry: its kind, permission bits and size in bytes.
#[derive(Clone, Copy, Debug, PartialEq, Eq, Structural)]
pub struct EntryMeta {
    pub kind: EntryKind,
    pub mode: u32,
    pub size: u64,
}

/// One entry of a directory listing.
///
/// `meta` is `None` when the metadata could not be read; for an entry that does not exist
/// (a dangling symbolic link) it is not consulted.
#[derive(Debug)]
pub struct Entry {
    pub path: String,
    pub name: String,
    pub exists: bool,
    pub meta: Option<EntryMeta>,
}

/// Display category of an entry, which selects its color.
#[derive(Clone, Copy, Debug, PartialEq, Eq, Structural)]
pub enum Category {
    Missing,
    Directory,
    Symlink,
    Executable,
    Regular,
}

/// Errors of a directory listing.
#[derive(Clone, Copy, Debug, PartialEq, Eq, Structural)]
pub enum ListError {
    /// The directory could not be enumerated.
    DirectoryRead,
    /// An entry's metadata could not be read, or the entry is missing where its size is shown.
    Metadata,
    /// An entry's name is not valid text.
    InvalidEntryName,
}

/// Mask of the three execute permission bits.
pub const EXEC_BITS: u32 = 0o111;

/// Whether any execute bit is set in `mode`.
pub open spec fn is_executable_mode(mode: u32) -> bool {
    mode & EXEC_BITS != 0
}

/// The category of an existing entry with metadata `m`.
pub open spec fn category_of_meta(m: EntryMeta) -> Category {
    match m.kind {
        EntryKind::Symlink => Category::Symlink,
        EntryKind::Directory => Category::Directory,
        _ => if is_executable_mode(m.mode) {
            Category::Executable
        } else {
            Category::Regular
        },
    }
}

/// The category of `e`, or `None` when its metadata is needed and was not read.
pub open spec fn category_spec(e: Entry) -> Option<Category> {
    if !e.exists {
        Some(Category::Missing)
    } else {
        match e.meta {
            Some(m) => Some(category_of_meta(m)),
            None => None,
        }
    }
}

/// Classifies an entry: missing first, then symbolic link, directory, executable, regular file.
pub fn classify(e: &Entry) -> (r: Result<Category, ListError>)
    ensures
        category_spec(*e) matches Some(c) ==> r == Ok::<Category, ListError>(c),
        category_spec(*e) is None ==> r == Err::<Category, ListError>(ListError::Metadata),
{
    if !e.exists {
        return Ok(Category::Missing);
    }
    match e.meta {
        None => Err(ListError::Metadata),
        Some(m) => {
            match m.kind {
                EntryKind::Symlink => Ok(Category::Symlink),
                EntryKind::Directory => Ok(Category::Directory),
                _ => if m.mode & EXEC_BITS != 0 {
                    Ok(Category::Executable)
                } else {
                    Ok(Category::Regular)
                },
            }
        },
    }
}

/// Terminal foreground colors used by a listing.
#[derive(Clone, Copy, Debug, PartialEq, Eq, Structural)]
pub enum Color {
    Blue,
    Cyan,
    Green,
    White,
    Red,
    Yellow,
}

/// A foreground color with a bold flag.
#[derive(Clone, Copy, Debug, PartialEq, Eq, Structural)]
pub struct Style {
    pub fg: Color,
    pub bold: bool,
}

/// The neutral style that a listing returns to.
pub open spec fn neutral_spec() -> Style {
    Style { fg: Color::White, bold: false }
}

/// The style of each category.
pub open spec fn style_spec(c: Category) -> Style {
    match c {
        Category::Directory => Style { fg: Color::Blue, bold: true },
        Category::Symlink => Style { fg: Color::Cyan, bold: false },
        Category::Executable => Style { fg: Color::Green, bold: false },
        Category::Regular => neutral_spec(),
        Category::Missing => Style { fg: Color::Red, bold: true },
    }
}

/// The neutral style: white, not bold.
pub fn neutral() -> (r: Style)
    ensures
        r == neutral_spec(),
{
    Style { fg: Color::White, bold: false }
}

/// The style in which entries of category `c` are printed.
pub fn style_of(c: Category) -> (r: Style)
    ensures
        r == style_spec(c),
{
    match c {
        Category::Directory => Style { fg: Color::Blue, bold: true },
        Category::Symlink => Style { fg: Color::Cyan, bold: false },
        Category::Executable => Style { fg: Color::Green, bold: false },
        Category::Regular => neutral(),
        Category::Missing => Style { fg: Color::Red, bold: true },
    }
}

/// Which entries are shown, in what order, and whether sizes are printed.
#[derive(Clone, Copy, Debug, PartialEq, Eq, Structural)]
pub struct DisplayFlags {
    /// Show entries whose name starts with a dot.
    pub all: bool,
    /// Reverse the final order.
    pub reverse: bool,
    /// Keep the order in which the directory was enumerated.
    pub unsorted: bool,
    /// Sort by bytes rather than by the lowercase form.
    pub case_sensitive: bool,
    /// Print each entry's size on its own line.
    pub show_size: bool,
    /// Scale sizes to a unit rather than print the raw byte count.
    pub human_readable: bool,
    /// Scale by 1000 rather than 1024.
    pub base_1000: bool,
}

} // verus!
