//! The column layout of a listing and the writes that print it.
use vstd::prelude::*;
use crate::entry::{
    category_spec, classify, neutral, neutral_spec, style_of, style_spec, Category, DisplayFlags,
    Entry, ListError, Style,
};
use crate::size::{human_readable_filesize, human_size, raw_filesize, raw_size};
use crate::order::{drawn_from, order_entries, ordered};
use crate::text::{byte_len, padded, right_pad, str_byte_len};
use crate::entry::{Color, EntryKind};

verus! {

/// One write to a colored terminal.
#[derive(Debug, PartialEq, Eq)]
pub enum Piece {
    /// Switch the foreground style.
    SetStyle(Style),
    /// Print text.
    Text(String),
    /// End the line.
    Newline,
}

/// A write with its text as characters.
pub enum PieceView {
    SetStyle(Style),
    Text(Seq<char>),
    Newline,
}

impl View for Piece {
    type V = PieceView;

    open spec fn view(&self) -> PieceView {
        match self {
            Piece::SetStyle(s) => PieceView::SetStyle(*s),
            Piece::Text(t) => PieceView::Text(t@),
            Piece::Newline => PieceView::Newline,
        }
    }
}

/// The writes of `v`, as characters.
pub open spec fn pieces_view(v: Seq<Piece>) -> Seq<PieceView> {
    v.map_values(|p: Piece| p@)
}

/// Width of the size column when sizes are shown.
pub const SIZE_COLUMN: usize = 10;

/// The computed shape of a grid.
#[derive(Clone, Copy, Debug, PartialEq, Eq, Structural)]
pub struct LayoutPlan {
    /// Width of every column in bytes.
    pub column_width: usize,
    /// How many entries share a row.
    pub per_row: usize,
    /// Number of entries laid out.
    pub count: usize,
    /// All columns together fit in the terminal, so each entry is padded to its own width.
    pub dense: bool,
}

/// Every name leaves room for two separator bytes within `usize`.
pub open spec fn names_fit(s: Seq<Entry>) -> bool {
    forall|i: int| 0 <= i < s.len() ==> byte_len(#[trigger] s[i].name@) + 2 <= usize::MAX
}

/// The largest name length in bytes, zero for no entries.
pub open spec fn longest_name(s: Seq<Entry>) -> nat
    decreases s.len(),
{
    if s.len() == 0 {
        0
    } else {
        let rest = longest_name(s.drop_last());
        let last = byte_len(s.last().name@);
        if rest < last { last } else { rest }
    }
}

/// Column width: the longest name plus a two-byte separator, at most the terminal width.
pub open spec fn column_width_spec(longest: nat, width: nat) -> nat {
    if longest + 2 <= width { longest + 2 } else { width }
}

/// Entries per row: as many columns as fit, and never fewer than one.
pub open spec fn per_row_spec(width: nat, column: nat) -> nat {
    if column == 0 || width / column < 1 { 1 } else { width / column }
}

/// The plan for laying out `s` on a terminal `width` bytes wide.
pub open spec fn plan_spec(s: Seq<Entry>, width: nat) -> LayoutPlan {
    let cw = column_width_spec(longest_name(s), width);
    LayoutPlan {
        column_width: cw as usize,
        per_row: per_row_spec(width, cw) as usize,
        count: s.len() as usize,
        dense: cw * s.len() <= width,
    }
}

/// A line ends after the `i`-th entry when it closes a row and is not the last entry.
pub open spec fn row_break(i: nat, per_row: nat, count: nat) -> bool {
    i % per_row == (per_row - 1) as nat && i + 1 != count
}

/// Entry `e` cannot be printed: its metadata is needed and missing.
pub open spec fn entry_fails(e: Entry, flags: DisplayFlags) -> bool {
    category_spec(e) is None || (flags.show_size && !e.exists)
}

/// The width that the name of `e` is padded to.
pub open spec fn cell_width(e: Entry, plan: LayoutPlan) -> nat {
    if plan.dense && e.exists { byte_len(e.name@) + 2 } else { plan.column_width as nat }
}

/// The size text of an entry with `size` bytes.
pub open spec fn size_text(size: u64, flags: DisplayFlags) -> Seq<char> {
    if flags.human_readable { human_size(size as nat, flags.base_1000) } else { raw_size(size as nat) }
}

/// The writes for the `i`-th entry `e` of a listing.
pub open spec fn cell_pieces(e: Entry, i: nat, plan: LayoutPlan, flags: DisplayFlags) -> Seq<PieceView> {
    let paint = PieceView::SetStyle(style_spec(category_spec(e).unwrap()));
    let name = PieceView::Text(padded(e.name@, cell_width(e, plan)));
    if flags.show_size {
        let size = PieceView::Text(padded(size_text(e.meta.unwrap().size, flags), SIZE_COLUMN as nat));
        let head = seq![paint, size, name];
        if i + 1 < plan.count { head.push(PieceView::Newline) } else { head }
    } else {
        let head = seq![paint, name];
        if row_break(i, plan.per_row as nat, plan.count as nat) { head.push(PieceView::Newline) } else { head }
    }
}

/// The writes for the first `k` entries of `s`.
pub open spec fn cells(s: Seq<Entry>, plan: LayoutPlan, flags: DisplayFlags, k: nat) -> Seq<PieceView>
    decreases k,
{
    if k == 0 {
        Seq::empty()
    } else {
        cells(s, plan, flags, (k - 1) as nat) + cell_pieces(s[k - 1], (k - 1) as nat, plan, flags)
    }
}

/// The writes for a whole listing of `s`, ending with a return to the neutral style.
pub open spec fn grid_spec(s: Seq<Entry>, flags: DisplayFlags, width: nat) -> Seq<PieceView> {
    cells(s, plan_spec(s, width), flags, s.len()).push(PieceView::SetStyle(neutral_spec()))
}

/// Length in bytes of the longest name of `entries`.
pub fn longest_name_len(entries: &Vec<Entry>) -> (r: usize)
    ensures
        r == longest_name(entries@),
{
    let mut best: usize = 0;
    let mut i: usize = 0;
    while i < entries.len()
        invariant
            0 <= i <= entries@.len(),
            best == longest_name(entries@.take(i as int)),
        decreases entries@.len() - i,
    {
        let len = str_byte_len(entries[i].name.as_str());
        proof {
            assert(entries@.take(i + 1).drop_last() =~= entries@.take(i as int));
        }
        if best < len {
            best = len;
        }
        i = i + 1;
    }
    proof {
        assert(entries@.take(i as int) =~= entries@);
    }
    best
}

/// Column width for names of at most `longest` bytes on a terminal `width` bytes wide.
pub fn column_width(longest: usize, width: usize) -> (r: usize)
    ensures
        r == column_width_spec(longest as nat, width as nat),
{
    if width >= 2 && longest <= width - 2 {
        longest + 2
    } else {
        width
    }
}

/// Number of entries per row for columns `column` bytes wide on a terminal `width` bytes wide.
pub fn entries_per_row(width: usize, column: usize) -> (r: usize)
    ensures
        r == per_row_spec(width as nat, column as nat),
        r >= 1,
{
    if column == 0 || width / column < 1 {
        1
    } else {
        width / column
    }
}

/// Whether `count` columns of `column` bytes fit within `width` bytes.
fn columns_fit(column: usize, count: usize, width: usize) -> (r: bool)
    ensures
        r == (column as nat * count as nat <= width as nat),
{
    assert(column as nat * count as nat <= u128::MAX) by (nonlinear_arith)
        requires
            column <= usize::MAX,
            count <= usize::MAX,
            usize::MAX <= u64::MAX,
    ;
    let product: u128 = column as u128 * count as u128;
    product <= width as u128
}

/// Computes the layout of `entries` on a terminal `width` bytes wide.
pub fn plan_layout(entries: &Vec<Entry>, width: usize) -> (r: LayoutPlan)
    ensures
        r == plan_spec(entries@, width as nat),
        r.per_row >= 1,
        r.column_width <= width,
{
    let longest = longest_name_len(entries);
    let cw = column_width(longest, width);
    LayoutPlan {
        column_width: cw,
        per_row: entries_per_row(width, cw),
        count: entries.len(),
        dense: columns_fit(cw, entries.len(), width),
    }
}

/// Lays out `entries` in a grid, or one per line with sizes, on a terminal `width` bytes wide.
///
/// Fails with `Metadata` when an entry's metadata is needed and missing: always for an
/// existing entry, and for a missing entry when sizes are shown.
pub fn write_dir_contents(entries: &Vec<Entry>, flags: &DisplayFlags, width: usize) -> (r: Result<
    Vec<Piece>,
    ListError,
>)
    requires
        names_fit(entries@),
    ensures
        r is Err <==> exists|i: int| 0 <= i < entries@.len() && entry_fails(#[trigger] entries@[i], *flags),
        r matches Err(e) ==> e == ListError::Metadata,
        r matches Ok(v) ==> pieces_view(v@) == grid_spec(entries@, *flags, width as nat),
{
    let plan = plan_layout(entries, width);
    let n = entries.len();
    let mut out: Vec<Piece> = Vec::new();
    let mut i: usize = 0;
    while i < n
        invariant
            n == entries@.len(),
            plan == plan_spec(entries@, width as nat),
            names_fit(entries@),
            0 <= i <= n,
            forall|j: int| 0 <= j < i ==> !entry_fails(#[trigger] entries@[j], *flags),
            pieces_view(out@) == cells(entries@, plan, *flags, i as nat),
        decreases n - i,
    {
        let e = &entries[i];
        let cat = match classify(e) {
            Ok(c) => c,
            Err(err) => {
                return Err(err);
            },
        };
        if flags.show_size && !e.exists {
            return Err(ListError::Metadata);
        }
        let ghost before = out@;
        let name_len = str_byte_len(e.name.as_str());
        proof {
            assert(byte_len(entries@[i as int].name@) + 2 <= usize::MAX);
        }
        let cell = if plan.dense && e.exists { name_len + 2 } else { plan.column_width };
        out.push(Piece::SetStyle(style_of(cat)));
        if flags.show_size {
            let size = match e.meta {
                Some(m) => m.size,
                None => 0,
            };
            let text = if flags.human_readable {
                human_readable_filesize(size, flags.base_1000)
            } else {
                raw_filesize(size)
            };
            out.push(Piece::Text(right_pad(text.as_str(), SIZE_COLUMN)));
            out.push(Piece::Text(right_pad(e.name.as_str(), cell)));
            if i + 1 < n {
                out.push(Piece::Newline);
            }
        } else {
            out.push(Piece::Text(right_pad(e.name.as_str(), cell)));
            if i % plan.per_row == plan.per_row - 1 && i + 1 != n {
                out.push(Piece::Newline);
            }
        }
        proof {
            assert(pieces_view(out@) =~= pieces_view(before) + cell_pieces(
                entries@[i as int],
                i as nat,
                plan,
                *flags,
            ));
        }
        i = i + 1;
    }
    out.push(Piece::SetStyle(neutral()));
    proof {
        assert(pieces_view(out@) =~= grid_spec(entries@, *flags, width as nat));
    }
    Ok(out)
}

proof fn lemma_names_fit_drawn(r: Seq<Entry>, s: Seq<Entry>)
    requires
        names_fit(s),
        drawn_from(r, s),
    ensures
        names_fit(r),
{
    assert forall|i: int| 0 <= i < r.len() implies byte_len(#[trigger] r[i].name@) + 2 <= usize::MAX by {
        assert(s.contains(r[i]));
        let w = choose|w: int| 0 <= w < s.len() && s[w] == r[i];
        assert(byte_len(s[w].name@) + 2 <= usize::MAX);
    }
}

/// Lists the entries of one directory: shows, orders and lays them out as `flags` ask on a
/// terminal `width` bytes wide, then ends the line.
pub fn print_entries(entries: Vec<Entry>, flags: &DisplayFlags, width: usize) -> (r: Result<
    Vec<Piece>,
    ListError,
>)
    requires
        names_fit(entries@),
    ensures
        exists|o: Seq<Entry>|
            {
                &&& #[trigger] ordered(o, entries@, *flags)
                &&& r is Err <==> exists|i: int| 0 <= i < o.len() && entry_fails(#[trigger] o[i], *flags)
                &&& r matches Ok(v) ==> pieces_view(v@) == grid_spec(o, *flags, width as nat).push(PieceView::Newline)
            },
        r matches Err(e) ==> e == ListError::Metadata,
{
    let ghost orig = entries@;
    let shown = order_entries(entries, flags);
    proof {
        lemma_names_fit_drawn(shown@, orig);
    }
    let r = match write_dir_contents(&shown, flags, width) {
        Ok(pieces) => {
            let mut pieces = pieces;
            pieces.push(Piece::Newline);
            Ok(pieces)
        },
        Err(e) => Err(e),
    };
    proof {
        if r is Ok {
            assert(pieces_view(r->Ok_0@) =~= grid_spec(shown@, *flags, width as nat).push(PieceView::Newline));
        }
        assert(ordered(shown@, orig, *flags));
    }
    r
}

/// Whether `e` is listed among directories in the plain listing.
pub open spec fn is_directory_entry(e: Entry) -> bool {
    e.exists && (e.meta matches Some(m) && m.kind == EntryKind::Directory)
}

/// The style of names in the plain listing.
pub open spec fn plain_style(dir: bool) -> Style {
    if dir { Style { fg: Color::Blue, bold: true } } else { Style { fg: Color::White, bold: false } }
}

/// One line per entry of `s` that is a directory (`dir`) or is not (`!dir`), in order.
pub open spec fn plain_lines(s: Seq<Entry>, dir: bool) -> Seq<PieceView>
    decreases s.len(),
{
    if s.len() == 0 {
        Seq::empty()
    } else {
        let rest = plain_lines(s.drop_last(), dir);
        let e = s.last();
        if is_directory_entry(e) == dir {
            rest + seq![PieceView::SetStyle(plain_style(dir)), PieceView::Text(e.name@), PieceView::Newline]
        } else {
            rest
        }
    }
}

/// The flags of the plain listing: sorted by path bytes, optionally all and reversed.
pub open spec fn plain_flags(all: bool, reverse: bool) -> DisplayFlags {
    DisplayFlags {
        all,
        reverse,
        unsorted: false,
        case_sensitive: true,
        show_size: false,
        human_readable: false,
        base_1000: false,
    }
}

fn push_plain_lines(out: &mut Vec<Piece>, s: &Vec<Entry>, dir: bool)
    ensures
        pieces_view(final(out)@) == pieces_view(old(out)@) + plain_lines(s@, dir),
{
    let mut i: usize = 0;
    let ghost start = pieces_view(out@);
    while i < s.len()
        invariant
            0 <= i <= s@.len(),
            start == pieces_view(old(out)@),
            pieces_view(out@) == start + plain_lines(s@.take(i as int), dir),
        decreases s@.len() - i,
    {
        let e = &s[i];
        let ghost before = pieces_view(out@);
        proof {
            assert(s@.take(i + 1).drop_last() =~= s@.take(i as int));
        }
        let is_dir = e.exists && match e.meta {
            Some(m) => m.kind == EntryKind::Directory,
            None => false,
        };
        if is_dir == dir {
            let style = if dir { Style { fg: Color::Blue, bold: true } } else { neutral() };
            out.push(Piece::SetStyle(style));
            out.push(Piece::Text(e.name.clone()));
            out.push(Piece::Newline);
            proof {
                assert(pieces_view(out@) =~= before + seq![
                    PieceView::SetStyle(plain_style(dir)),
                    PieceView::Text(e.name@),
                    PieceView::Newline,
                ]);
            }
        }
        i = i + 1;
    }
    proof {
        assert(s@.take(i as int) =~= s@);
    }
}

/// The plain listing: entries sorted by path, directories first in bold blue, then the rest
/// in white, one name per line.
pub fn list_dirs_first(entries: Vec<Entry>, all: bool, reverse: bool) -> (r: Vec<Piece>)
    ensures
        exists|o: Seq<Entry>|
            #[trigger] ordered(o, entries@, plain_flags(all, reverse)) && pieces_view(r@) == plain_lines(o, true) + plain_lines(o, false),
{
    let flags = DisplayFlags {
        all,
        reverse,
        unsorted: false,
        case_sensitive: true,
        show_size: false,
        human_readable: false,
        base_1000: false,
    };
    let ghost orig = entries@;
    let shown = order_entries(entries, &flags);
    assert(flags == plain_flags(all, reverse));
    assert(ordered(shown@, orig, plain_flags(all, reverse)));
    let mut out: Vec<Piece> = Vec::new();
    proof {
        assert(pieces_view(out@) =~= Seq::<PieceView>::empty());
    }
    push_plain_lines(&mut out, &shown, true);
    push_plain_lines(&mut out, &shown, false);
    proof {
        assert(pieces_view(out@) =~= plain_lines(shown@, true) + plain_lines(shown@, false));
    }
    out
}

/// A note in yellow on a line of its own, marked with an arrow.
pub fn write_str_to_buffer(s: &str) -> (r: Vec<Piece>)
    ensures
        pieces_view(r@) == seq![
            PieceView::SetStyle(Style { fg: Color::Yellow, bold: false }),
            PieceView::Text("➥ "@ + s@),
            PieceView::Newline,
        ],
{
    let mut line = String::from_str("➥ ");
    line.append(s);
    let mut out: Vec<Piece> = Vec::new();
    out.push(Piece::SetStyle(Style { fg: Color::Yellow, bold: false }));
    out.push(Piece::Text(line));
    out.push(Piece::Newline);
    proof {
        assert(pieces_view(out@) =~= seq![
            PieceView::SetStyle(Style { fg: Color::Yellow, bold: false }),
            PieceView::Text("➥ "@ + s@),
            PieceView::Newline,
        ]);
    }
    out
}

/// A row always holds at least one entry, and exactly one when a column is wider than the terminal.
pub proof fn lemma_per_row_positive(width: nat, column: nat)
    ensures
        per_row_spec(width, column) >= 1,
        width < column ==> per_row_spec(width, column) == 1,
{
    if 0 < column && width < column {
        assert(width / column == 0) by (nonlinear_arith)
            requires
                width < column,
                0 < column,
        ;
    }
}

/// A missing entry is shown in the missing category; it fails a listing only when sizes are shown.
pub proof fn lemma_missing_entry(e: Entry, flags: DisplayFlags)
    requires
        !e.exists,
    ensures
        category_spec(e) == Some(Category::Missing),
        entry_fails(e, flags) <==> flags.show_size,
{
}

/// A listing of no entries only returns to the neutral style.
pub proof fn lemma_empty_listing(flags: DisplayFlags, width: nat)
    ensures
        grid_spec(Seq::<Entry>::empty(), flags, width) == seq![PieceView::SetStyle(neutral_spec())],
{
    assert(grid_spec(Seq::<Entry>::empty(), flags, width) =~= seq![PieceView::SetStyle(neutral_spec())]);
}

} // verus!
