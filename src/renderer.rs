//! Boxes of text for chat output: tables of cells (`RenderBoxContent`),
//! framed boxes of side-by-side tables (`RenderBox`), and a stack of boxes
//! (`Renderer`).
use crate::catalog::string_views;
use crate::text::{
    irc_len, lemma_irc_len_bound, lemma_plain_irc_len, plain_text, truncated, StringManips,
};
use vstd::prelude::*;
use vstd::string::*;
use vstd::utf8::encode_utf8;

verus! {

/// How many bytes the UTF-8 text of `s` takes.
/// (In memory the byte length of a string always fits in a `usize`.)
pub open spec fn byte_len(s: Seq<char>) -> nat {
    (encode_utf8(s).len() as usize) as nat
}

pub open spec fn sat_sub(a: int, b: int) -> nat {
    if a > b {
        (a - b) as nat
    } else {
        0
    }
}

pub open spec fn repeated(c: char, n: nat) -> Seq<char> {
    Seq::new(n, |i: int| c)
}

/// Appends `n` copies of the one-character `piece`.
fn append_repeated(s: &mut String, piece: &str, n: usize)
    requires
        piece@.len() == 1,
    ensures
        final(s)@ == old(s)@ + repeated(piece@[0], n as nat),
{
    let mut i: usize = 0;
    while i < n
        invariant
            piece@.len() == 1,
            i <= n,
            s@ == old(s)@ + repeated(piece@[0], i as nat),
        decreases n - i,
    {
        s.append(piece);
        assert(old(s)@ + repeated(piece@[0], (i + 1) as nat) =~= old(s)@ + repeated(
            piece@[0],
            i as nat,
        ) + piece@);
        i = i + 1;
    }
}

fn byte_length(s: &String) -> (r: usize)
    ensures
        r == byte_len(s@),
{
    s.as_str().len()
}

/// A part of the output that draws itself in lines of a given width.
pub trait BoxContent {
    spec fn spec_lines(&self, width: nat) -> Seq<Seq<char>>;

    spec fn spec_len(&self) -> nat;

    /// Whether the part can be drawn at `width`.
    spec fn fits(&self, width: nat) -> bool;

    fn get_lines(&self, width: usize) -> (r: Vec<String>)
        requires
            self.fits(width as nat),
        ensures
            string_views(r@) == self.spec_lines(width as nat),
    ;

    /// How many lines the part takes.
    fn len(&self) -> (r: usize)
        ensures
            r == self.spec_len(),
    ;
}

/// A table of `N` columns: an optional header row, rows of cells, and
/// optional column widths (else each column takes an equal share).
pub struct RenderBoxContent<const N: usize> {
    header: Option<[String; N]>,
    content: Vec<[String; N]>,
    sizes: Option<[usize; N]>,
}

/// The width of column `idx`.
pub open spec fn column_width(sizes: Option<Seq<usize>>, width: nat, n_columns: nat, idx: int) -> nat {
    match sizes {
        Some(s) => s[idx] as nat,
        None => width / n_columns,
    }
}

/// A header cell: the text cut to the column, padded with spaces to the
/// column's width counted in bytes.
pub open spec fn header_cell(cell: Seq<char>, w: nat) -> Seq<char> {
    truncated(cell, w) + repeated(' ', sat_sub(w as int, byte_len(truncated(cell, w)) as int))
}

/// A body cell: the text cut to the column, padded with spaces to the
/// column's width counted in visible characters.
pub open spec fn body_cell(cell: Seq<char>, w: nat) -> Seq<char> {
    truncated(cell, w) + repeated(' ', sat_sub(w as int, irc_len(truncated(cell, w)) as int))
}

pub open spec fn header_cells(cells: Seq<Seq<char>>, sizes: Option<Seq<usize>>, width: nat, n: nat) -> Seq<
    char,
>
    decreases n,
{
    if n == 0 {
        Seq::empty()
    } else {
        header_cells(cells, sizes, width, (n - 1) as nat) + header_cell(
            cells[n - 1],
            column_width(sizes, width, cells.len(), n - 1),
        )
    }
}

pub open spec fn body_cells(cells: Seq<Seq<char>>, sizes: Option<Seq<usize>>, width: nat, n: nat) -> Seq<
    char,
>
    decreases n,
{
    if n == 0 {
        Seq::empty()
    } else {
        body_cells(cells, sizes, width, (n - 1) as nat) + body_cell(
            cells[n - 1],
            column_width(sizes, width, cells.len(), n - 1),
        )
    }
}

/// The header line: its cells, padded with spaces to `width` bytes.
pub open spec fn header_line(cells: Seq<Seq<char>>, sizes: Option<Seq<usize>>, width: nat) -> Seq<char> {
    let l = header_cells(cells, sizes, width, cells.len());
    l + repeated(' ', sat_sub(width as int, byte_len(l) as int))
}

/// A body line: its cells, padded with spaces to `width` visible characters.
pub open spec fn body_line(cells: Seq<Seq<char>>, sizes: Option<Seq<usize>>, width: nat) -> Seq<char> {
    let l = body_cells(cells, sizes, width, cells.len());
    l + repeated(' ', sat_sub(width as int, irc_len(l) as int))
}

impl<const N: usize> RenderBoxContent<N> {
    pub closed spec fn spec_header(&self) -> Option<Seq<Seq<char>>> {
        match self.header {
            Some(h) => Some(string_views(h@)),
            None => None,
        }
    }

    pub closed spec fn spec_content(&self) -> Seq<Seq<Seq<char>>> {
        self.content@.map_values(|row: [String; N]| string_views(row@))
    }

    pub closed spec fn spec_sizes(&self) -> Option<Seq<usize>> {
        match self.sizes {
            Some(s) => Some(s@),
            None => None,
        }
    }

    pub fn new() -> (r: Self)
        ensures
            r.spec_header() is None,
            r.spec_content().len() == 0,
            r.spec_sizes() is None,
    {
        RenderBoxContent { header: None, content: Vec::new(), sizes: None }
    }

    pub fn header(&mut self, header: [String; N]) -> (r: &mut Self)
        ensures
            r.spec_header() == Some(string_views(header@)),
            r.spec_content() == old(self).spec_content(),
            r.spec_sizes() == old(self).spec_sizes(),
            *final(self) == *final(r),
    {
        self.header = Some(header);
        self
    }

    pub fn sizes(&mut self, sizes: [usize; N]) -> (r: &mut Self)
        ensures
            r.spec_sizes() == Some(sizes@),
            r.spec_header() == old(self).spec_header(),
            r.spec_content() == old(self).spec_content(),
            *final(self) == *final(r),
    {
        self.sizes = Some(sizes);
        self
    }

    pub fn add_row(&mut self, row: [String; N]) -> (r: &mut Self)
        ensures
            r.spec_content() == old(self).spec_content().push(string_views(row@)),
            r.spec_header() == old(self).spec_header(),
            r.spec_sizes() == old(self).spec_sizes(),
            *final(self) == *final(r),
    {
        self.content.push(row);
        self
    }

    /// A copy of the table.
    pub fn get(&self) -> (r: Self)
        ensures
            r.spec_header() == self.spec_header(),
            r.spec_content() == self.spec_content(),
            r.spec_sizes() == self.spec_sizes(),
    {
        let header = match &self.header {
            Some(h) => Some(h.clone()),
            None => None,
        };
        proof {
            if self.header is Some {
                assert(string_views(header->0@) =~= string_views(self.header->0@));
            }
        }
        let mut content: Vec<[String; N]> = Vec::new();
        let mut i: usize = 0;
        while i < self.content.len()
            invariant
                i <= self.content@.len(),
                content@.len() == i,
                forall|k: int|
                    0 <= k < i ==> string_views((#[trigger] content@[k])@) == string_views(
                        self.content@[k]@,
                    ),
            decreases self.content@.len() - i,
        {
            let row = self.content[i].clone();
            assert(string_views(row@) =~= string_views(self.content@[i as int]@));
            content.push(row);
            i = i + 1;
        }
        let r = RenderBoxContent { header, content, sizes: self.sizes };
        assert(r.spec_content() =~= self.spec_content());
        r
    }

    fn cell_width(&self, width: usize, idx: usize) -> (r: usize)
        requires
            N > 0,
            idx < N,
        ensures
            r == column_width(self.spec_sizes(), width as nat, N as nat, idx as int),
    {
        match &self.sizes {
            Some(s) => s[idx],
            None => width / N,
        }
    }

    fn render_header(&self, cells: &[String; N], width: usize) -> (r: String)
        requires
            self.fits(width as nat),
        ensures
            r@ == header_line(string_views(cells@), self.spec_sizes(), width as nat),
    {
        proof {
            reveal_strlit(" ");
        }
        let mut line = String::new();
        let mut idx: usize = 0;
        while idx < N
            invariant
                self.fits(width as nat),
                idx <= N,
                line@ == header_cells(string_views(cells@), self.spec_sizes(), width as nat, idx as nat),
            decreases N - idx,
        {
            proof {
                reveal_strlit(" ");
            }
            let w = self.cell_width(width, idx);
            let value = cells[idx].pretty_truncate(w);
            let pad = if w > byte_length(&value) {
                w - byte_length(&value)
            } else {
                0
            };
            line.append(value.as_str());
            append_repeated(&mut line, " ", pad);
            assert(line@ =~= header_cells(
                string_views(cells@),
                self.spec_sizes(),
                width as nat,
                (idx + 1) as nat,
            ));
            idx = idx + 1;
        }
        let used = byte_length(&line);
        let pad = if width > used {
            width - used
        } else {
            0
        };
        append_repeated(&mut line, " ", pad);
        line
    }

    fn render_row(&self, cells: &[String; N], width: usize) -> (r: String)
        requires
            self.fits(width as nat),
        ensures
            r@ == body_line(string_views(cells@), self.spec_sizes(), width as nat),
    {
        proof {
            reveal_strlit(" ");
        }
        let mut line = String::new();
        let mut idx: usize = 0;
        while idx < N
            invariant
                self.fits(width as nat),
                idx <= N,
                line@ == body_cells(string_views(cells@), self.spec_sizes(), width as nat, idx as nat),
            decreases N - idx,
        {
            proof {
                reveal_strlit(" ");
            }
            let w = self.cell_width(width, idx);
            let value = cells[idx].pretty_truncate(w);
            let shown = value.irc_safe_len();
            let pad = if w > shown {
                w - shown
            } else {
                0
            };
            line.append(value.as_str());
            append_repeated(&mut line, " ", pad);
            assert(line@ =~= body_cells(
                string_views(cells@),
                self.spec_sizes(),
                width as nat,
                (idx + 1) as nat,
            ));
            idx = idx + 1;
        }
        let used = line.irc_safe_len();
        let pad = if width > used {
            width - used
        } else {
            0
        };
        append_repeated(&mut line, " ", pad);
        line
    }
}

/// The lines of a table: the header line if any, then one line per row.
pub open spec fn table_lines(
    header: Option<Seq<Seq<char>>>,
    content: Seq<Seq<Seq<char>>>,
    sizes: Option<Seq<usize>>,
    width: nat,
) -> Seq<Seq<char>> {
    let head = match header {
        Some(h) => seq![header_line(h, sizes, width)],
        None => Seq::empty(),
    };
    head + content.map_values(|row: Seq<Seq<char>>| body_line(row, sizes, width))
}

impl<const N: usize> BoxContent for RenderBoxContent<N> {
    open spec fn spec_lines(&self, width: nat) -> Seq<Seq<char>> {
        table_lines(self.spec_header(), self.spec_content(), self.spec_sizes(), width)
    }

    /// The number of rows, the header included (saturating at the largest
    /// `usize`).
    open spec fn spec_len(&self) -> nat {
        if self.spec_header() is Some && self.spec_content().len() < usize::MAX {
            self.spec_content().len() + 1
        } else {
            self.spec_content().len()
        }
    }

    /// Every column is wider than the `...` of a cut cell.
    open spec fn fits(&self, width: nat) -> bool {
        N > 0 && forall|idx: int|
            0 <= idx < N ==> #[trigger] column_width(self.spec_sizes(), width, N as nat, idx) > 3
    }

    fn get_lines(&self, width: usize) -> (r: Vec<String>) {
        let mut lines: Vec<String> = Vec::new();
        match &self.header {
            Some(h) => {
                lines.push(self.render_header(h, width));
            },
            None => {},
        }
        let ghost head = string_views(lines@);
        let mut i: usize = 0;
        while i < self.content.len()
            invariant
                self.fits(width as nat),
                i <= self.content@.len(),
                string_views(lines@) == head + self.spec_content().take(i as int).map_values(
                    |row: Seq<Seq<char>>| body_line(row, self.spec_sizes(), width as nat),
                ),
            decreases self.content@.len() - i,
        {
            let ghost prev = lines@;
            lines.push(self.render_row(&self.content[i], width));
            assert(string_views(lines@) =~= head + self.spec_content().take(i + 1).map_values(
                |row: Seq<Seq<char>>| body_line(row, self.spec_sizes(), width as nat),
            )) by {
                assert(string_views(lines@) =~= string_views(prev).push(lines@.last()@));
            }
            i = i + 1;
        }
        assert(self.spec_content().take(self.content@.len() as int) =~= self.spec_content());
        proof {
            if self.header is Some {
                assert(head =~= seq![
                    header_line(string_views(self.header->0@), self.spec_sizes(), width as nat),
                ]);
            } else {
                assert(head =~= Seq::<Seq<char>>::empty());
            }
        }
        lines
    }

    fn len(&self) -> (r: usize) {
        let mut len = self.content.len();
        if self.header.is_some() && len < usize::MAX {
            len = len + 1;
        }
        len
    }
}


/// A part of the output made of whole lines, such as a framed box.
pub trait Part {
    spec fn spec_lines(&self, width: nat) -> Seq<Seq<char>>;

    /// Whether the part can be drawn at `width`.
    spec fn fits(&self, width: nat) -> bool;

    fn get_lines(&self, width: usize) -> (r: Vec<String>)
        requires
            self.fits(width as nat),
        ensures
            string_views(r@) == self.spec_lines(width as nat),
    ;
}

/// A framed box of `N` tables side by side, with optional titles in the top
/// border.
pub struct RenderBox<'a, const N: usize> {
    headers: Option<[String; N]>,
    columns: Option<[&'a dyn BoxContent; N]>,
    sizes: Option<[usize; N]>,
}

/// `line` brought to `width - 1` visible characters before its closing
/// corner: one character taken off when it is a character too long, or
/// `fill` added when it is short.
pub open spec fn fitted(line: Seq<char>, width: nat, fill: char) -> Seq<char> {
    if irc_len(line) == width {
        line.drop_last()
    } else if irc_len(line) + 1 < width {
        line + repeated(fill, (width - irc_len(line) - 1) as nat)
    } else {
        line
    }
}

/// The part of the top border over column `k`, titled `h`.
pub open spec fn title_piece(h: Seq<char>, k: int, w: nat) -> Seq<char> {
    let value = truncated(h, w) + " "@;
    (if k == 0 {
        "╭"@
    } else {
        "┬"@
    }) + " "@ + value + " "@ + repeated('─', sat_sub(w as int, byte_len(value) as int))
}

pub open spec fn title_pieces(hs: Seq<Seq<char>>, w: nat, n: nat) -> Seq<char>
    decreases n,
{
    if n == 0 {
        Seq::empty()
    } else {
        title_pieces(hs, w, (n - 1) as nat) + title_piece(hs[n - 1], n - 1, w)
    }
}

/// The top border: the titles, or a plain border.
pub open spec fn top_line(headers: Option<Seq<Seq<char>>>, width: nat, w: nat) -> Seq<char> {
    match headers {
        Some(hs) => fitted(title_pieces(hs, w, hs.len()), width, '─') + "╮"@,
        None => "╭"@ + repeated('─', sat_sub(width as int, 2)) + "╮"@,
    }
}

/// The cell of row `r` of a column whose lines are `lines`: the line, or
/// blanks below the column's end.
pub open spec fn row_piece(lines: Seq<Seq<char>>, r: int, w: nat) -> Seq<char> {
    if r >= lines.len() {
        "│ "@ + repeated(' ', w) + " "@
    } else {
        "│ "@ + lines[r] + " "@
    }
}

pub open spec fn row_pieces(cols: Seq<Seq<Seq<char>>>, r: int, w: nat, n: nat) -> Seq<char>
    decreases n,
{
    if n == 0 {
        Seq::empty()
    } else {
        row_pieces(cols, r, w, (n - 1) as nat) + row_piece(cols[n - 1], r, w)
    }
}

pub open spec fn row_line(cols: Seq<Seq<Seq<char>>>, r: int, w: nat, width: nat) -> Seq<char> {
    fitted(row_pieces(cols, r, w, cols.len()), width, ' ') + "│"@
}

pub open spec fn bottom_pieces(n: nat, seg: nat) -> Seq<char>
    decreases n,
{
    if n == 0 {
        Seq::empty()
    } else {
        bottom_pieces((n - 1) as nat, seg) + (if n == 1 {
            "╰"@
        } else {
            "┴"@
        }) + repeated('─', seg)
    }
}

pub open spec fn bottom_line(n: nat, width: nat) -> Seq<char> {
    fitted(bottom_pieces(n, sat_sub((width / n) as int, 1)), width, '─') + "╯"@
}

pub open spec fn max_len<'a>(cols: Seq<&'a dyn BoxContent>, n: nat) -> nat
    decreases n,
{
    if n == 0 {
        0
    } else {
        let m = max_len(cols, (n - 1) as nat);
        let l = cols[n - 1].spec_len();
        if l > m {
            l
        } else {
            m
        }
    }
}

/// The lines of every column, drawn at `w`.
pub open spec fn column_lines<'a>(cols: Seq<&'a dyn BoxContent>, w: nat) -> Seq<Seq<Seq<char>>> {
    cols.map_values(|c: &'a dyn BoxContent| c.spec_lines(w))
}

/// A box around columns whose lines are `lines`: the top border, `rows`
/// lines of columns side by side, and the bottom border. Each column gets
/// `width / lines.len() - 3` characters.
pub open spec fn framed(headers: Option<Seq<Seq<char>>>, lines: Seq<Seq<Seq<char>>>, rows: nat, width: nat) -> Seq<
    Seq<char>,
> {
    let w = sat_sub((width / lines.len()) as int, 3);
    seq![top_line(headers, width, w)] + Seq::new(rows, |r: int| row_line(lines, r, w, width))
        + seq![bottom_line(lines.len(), width)]
}

/// The lines of a box of the tables `cols`, as many rows as the tallest.
pub open spec fn box_lines<'a>(
    headers: Option<Seq<Seq<char>>>,
    cols: Seq<&'a dyn BoxContent>,
    width: nat,
) -> Seq<Seq<char>> {
    framed(
        headers,
        column_lines(cols, sat_sub((width / cols.len()) as int, 3)),
        max_len(cols, cols.len()),
        width,
    )
}

/// `line` made to fit: what `fitted` says, done on a string.
fn fit_line(line: String, width: usize, fill: &str) -> (r: String)
    requires
        fill@.len() == 1,
        width > 0,
    ensures
        r@ == fitted(line@, width as nat, fill@[0]),
{
    let shown = line.irc_safe_len();
    if shown == width {
        proof {
            lemma_irc_len_bound(line@);
        }
        let n = line.as_str().unicode_len();
        line.as_str().substring_char(0, n - 1).to_owned()
    } else if shown < width && shown + 1 < width {
        let mut l = line;
        append_repeated(&mut l, fill, width - shown - 1);
        l
    } else {
        line
    }
}


impl<'a, const N: usize> RenderBox<'a, N> {
    pub closed spec fn spec_headers(&self) -> Option<Seq<Seq<char>>> {
        match self.headers {
            Some(h) => Some(string_views(h@)),
            None => None,
        }
    }

    pub closed spec fn spec_columns(&self) -> Option<Seq<&'a dyn BoxContent>> {
        match self.columns {
            Some(c) => Some(c@),
            None => None,
        }
    }

    pub closed spec fn spec_sizes(&self) -> Option<Seq<usize>> {
        match self.sizes {
            Some(s) => Some(s@),
            None => None,
        }
    }

    pub fn new() -> (r: Self)
        ensures
            r.spec_headers() is None,
            r.spec_columns() is None,
            r.spec_sizes() is None,
    {
        RenderBox { headers: None, columns: None, sizes: None }
    }

    pub fn headers(&mut self, headers: [String; N]) -> (r: &mut Self)
        ensures
            r.spec_headers() == Some(string_views(headers@)),
            r.spec_columns() == old(self).spec_columns(),
            r.spec_sizes() == old(self).spec_sizes(),
            *final(self) == *final(r),
    {
        self.headers = Some(headers);
        self
    }

    pub fn sizes(&mut self, sizes: [usize; N]) -> (r: &mut Self)
        ensures
            r.spec_sizes() == Some(sizes@),
            r.spec_headers() == old(self).spec_headers(),
            r.spec_columns() == old(self).spec_columns(),
            *final(self) == *final(r),
    {
        self.sizes = Some(sizes);
        self
    }

    pub fn add_content(&mut self, columns: [&'a dyn BoxContent; N]) -> (r: &mut Self)
        ensures
            r.spec_columns() == Some(columns@),
            r.spec_headers() == old(self).spec_headers(),
            r.spec_sizes() == old(self).spec_sizes(),
            *final(self) == *final(r),
    {
        self.columns = Some(columns);
        self
    }

    /// A copy of the box.
    pub fn get(&self) -> (r: Self)
        ensures
            r.spec_headers() == self.spec_headers(),
            r.spec_columns() == self.spec_columns(),
            r.spec_sizes() == self.spec_sizes(),
    {
        let headers = match &self.headers {
            Some(h) => Some(h.clone()),
            None => None,
        };
        proof {
            if self.headers is Some {
                assert(string_views(headers->0@) =~= string_views(self.headers->0@));
            }
        }
        RenderBox { headers, columns: self.columns, sizes: self.sizes }
    }
}

impl<'a, const N: usize> Part for RenderBox<'a, N> {
    open spec fn spec_lines(&self, width: nat) -> Seq<Seq<char>> {
        box_lines(self.spec_headers(), self.spec_columns()->0, width)
    }

    /// There are columns, each more than three characters wide once the
    /// frame takes its three, and each can be drawn at that width.
    open spec fn fits(&self, width: nat) -> bool {
        &&& N > 0
        &&& self.spec_columns() is Some
        &&& width / (N as nat) > 6
        &&& forall|c: int|
            0 <= c < N ==> (#[trigger] self.spec_columns()->0[c]).fits(
                (width / (N as nat) - 3) as nat,
            )
    }

    fn get_lines(&self, width: usize) -> (r: Vec<String>) {
        proof {
            reveal_strlit(" ");
            reveal_strlit("─");
        }
        let cols = match &self.columns {
            Some(c) => c,
            None => {
                return Vec::new();
            },
        };
        let ghost cs = cols@;
        assert(cs == self.spec_columns()->0);
        let w = width / N - 3;
        let mut max_rows: usize = 0;
        let mut c: usize = 0;
        while c < N
            invariant
                cs == cols@,
                c <= N,
                max_rows == max_len(cs, c as nat),
            decreases N - c,
        {
            let l = cols[c].len();
            if l > max_rows {
                max_rows = l;
            }
            c = c + 1;
        }
        let mut col_lines: Vec<Vec<String>> = Vec::new();
        let mut c: usize = 0;
        while c < N
            invariant
                cs == cols@,
                cs == self.spec_columns()->0,
                self.fits(width as nat),
                w == width / N - 3,
                c <= N,
                col_lines@.len() == c,
                forall|k: int|
                    0 <= k < c ==> string_views(#[trigger] col_lines@[k]@) == cs[k].spec_lines(
                        w as nat,
                    ),
            decreases N - c,
        {
            col_lines.push(cols[c].get_lines(w));
            c = c + 1;
        }
        let ghost lines = column_lines(cs, w as nat);
        let mut out: Vec<String> = Vec::new();
        let top = match &self.headers {
            Some(hs) => {
                let mut line = String::new();
                let mut k: usize = 0;
                while k < N
                    invariant
                        k <= N,
                        w > 3,
                        line@ == title_pieces(string_views(hs@), w as nat, k as nat),
                    decreases N - k,
                {
                    proof {
                        reveal_strlit(" ");
                        reveal_strlit("─");
                    }
                    let mut value = hs[k].pretty_truncate(w);
                    value.append(" ");
                    if k == 0 {
                        line.append("╭");
                    } else {
                        line.append("┬");
                    }
                    line.append(" ");
                    line.append(value.as_str());
                    line.append(" ");
                    let vb = byte_length(&value);
                    let pad = if w > vb {
                        w - vb
                    } else {
                        0
                    };
                    append_repeated(&mut line, "─", pad);
                    assert(line@ =~= title_pieces(string_views(hs@), w as nat, (k + 1) as nat));
                    k = k + 1;
                }
                proof {
                    reveal_strlit("─");
                }
                let mut fitted_line = fit_line(line, width, "─");
                fitted_line.append("╮");
                fitted_line
            },
            None => {
                let mut line = String::from_str("╭");
                append_repeated(&mut line, "─", if width > 2 { width - 2 } else { 0 });
                line.append("╮");
                line
            },
        };
        assert(top@ == top_line(self.spec_headers(), width as nat, w as nat));
        out.push(top);
        let mut r: usize = 0;
        while r < max_rows
            invariant
                width / N > 6,
                w == width / N - 3,
                out@[0]@ == top_line(self.spec_headers(), width as nat, w as nat),
                r <= max_rows,
                max_rows == max_len(cs, N as nat),
                cs.len() == N,
                col_lines@.len() == N,
                lines == column_lines(cs, w as nat),
                forall|k: int|
                    0 <= k < N ==> string_views(#[trigger] col_lines@[k]@) == cs[k].spec_lines(
                        w as nat,
                    ),
                out@.len() == r + 1,
                forall|q: int|
                    0 < q <= r ==> (#[trigger] out@[q])@ == row_line(lines, q - 1, w as nat, width as nat),
            decreases max_rows - r,
        {
            let mut line = String::new();
            let mut k: usize = 0;
            while k < N
                invariant
                    k <= N,
                    cs.len() == N,
                    col_lines@.len() == N,
                    lines == column_lines(cs, w as nat),
                    forall|j: int|
                        0 <= j < N ==> string_views(#[trigger] col_lines@[j]@) == cs[j].spec_lines(
                            w as nat,
                        ),
                    line@ == row_pieces(lines, r as int, w as nat, k as nat),
                decreases N - k,
            {
                proof {
                    reveal_strlit(" ");
                }
                line.append("│ ");
                assert(lines[k as int] == string_views(col_lines@[k as int]@));
                if r >= col_lines[k].len() {
                    append_repeated(&mut line, " ", w);
                } else {
                    line.append(col_lines[k][r].as_str());
                }
                line.append(" ");
                assert(line@ =~= row_pieces(lines, r as int, w as nat, (k + 1) as nat));
                k = k + 1;
            }
            assert(lines.len() == N);
            proof {
                reveal_strlit(" ");
            }
            let mut fitted_line = fit_line(line, width, " ");
            fitted_line.append("│");
            let ghost prev = out@;
            out.push(fitted_line);
            assert(out@[r + 1]@ == row_line(lines, r as int, w as nat, width as nat));
            assert forall|q: int| 0 < q <= r + 1 implies (#[trigger] out@[q])@ == row_line(
                lines,
                q - 1,
                w as nat,
                width as nat,
            ) by {
                if q <= r {
                    assert(out@[q] == prev[q]);
                }
            }
            r = r + 1;
        }
        let seg = if width / N >= 1 {
            width / N - 1
        } else {
            0
        };
        let mut bottom = String::new();
        let mut k: usize = 0;
        while k < N
            invariant
                k <= N,
                bottom@ == bottom_pieces(k as nat, seg as nat),
            decreases N - k,
        {
            proof {
                reveal_strlit("─");
            }
            if k == 0 {
                bottom.append("╰");
            } else {
                bottom.append("┴");
            }
            append_repeated(&mut bottom, "─", seg);
            assert(bottom@ =~= bottom_pieces((k + 1) as nat, seg as nat));
            k = k + 1;
        }
        proof {
            reveal_strlit("─");
        }
        let mut bottom_fitted = fit_line(bottom, width, "─");
        bottom_fitted.append("╯");
        assert(bottom_fitted@ == bottom_line(N as nat, width as nat));
        let ghost prev = out@;
        out.push(bottom_fitted);
        assert(string_views(out@) =~= box_lines(self.spec_headers(), cs, width as nat)) by {
            assert(out@[0] == prev[0]);
            assert forall|q: int| 0 < q <= max_rows implies (#[trigger] out@[q])@ == row_line(
                lines,
                q - 1,
                w as nat,
                width as nat,
            ) by {
                assert(out@[q] == prev[q]);
            }
        }
        out
    }
}


/// Boxes stacked one above the other, all drawn at one width.
pub struct Renderer<'a> {
    width: usize,
    boxes: Vec<&'a dyn Part>,
}

/// The lines of the first `n` parts of `boxes`, one part after the other.
pub open spec fn stacked<'a>(boxes: Seq<&'a dyn Part>, width: nat, n: nat) -> Seq<Seq<char>>
    decreases n,
{
    if n == 0 {
        Seq::empty()
    } else {
        stacked(boxes, width, (n - 1) as nat) + boxes[n - 1].spec_lines(width)
    }
}

impl<'a> Renderer<'a> {
    pub closed spec fn spec_width(&self) -> nat {
        self.width as nat
    }

    pub closed spec fn spec_boxes(&self) -> Seq<&'a dyn Part> {
        self.boxes@
    }

    pub fn new(width: usize) -> (r: Self)
        ensures
            r.spec_width() == width,
            r.spec_boxes().len() == 0,
    {
        Renderer { width: width, boxes: Vec::new() }
    }

    pub fn add_box(&mut self, element: &'a dyn Part) -> (r: &mut Self)
        ensures
            r.spec_boxes() == old(self).spec_boxes().push(element),
            r.spec_width() == old(self).spec_width(),
            *final(self) == *final(r),
    {
        self.boxes.push(element);
        self
    }

    /// Every box's lines, in order.
    pub fn build(&self) -> (r: Vec<String>)
        requires
            forall|i: int|
                0 <= i < self.spec_boxes().len() ==> (#[trigger] self.spec_boxes()[i]).fits(
                    self.spec_width(),
                ),
        ensures
            string_views(r@) == stacked(self.spec_boxes(), self.spec_width(), self.spec_boxes().len()),
    {
        let mut out: Vec<String> = Vec::new();
        let mut i: usize = 0;
        while i < self.boxes.len()
            invariant
                i <= self.boxes@.len(),
                forall|k: int|
                    0 <= k < self.spec_boxes().len() ==> (#[trigger] self.spec_boxes()[k]).fits(
                        self.spec_width(),
                    ),
                self.spec_boxes() == self.boxes@,
                self.spec_width() == self.width as nat,
                string_views(out@) == stacked(self.boxes@, self.width as nat, i as nat),
            decreases self.boxes@.len() - i,
        {
            assert(self.boxes@[i as int].fits(self.width as nat));
            let lines = self.boxes[i].get_lines(self.width);
            let mut j: usize = 0;
            let ghost before = string_views(out@);
            while j < lines.len()
                invariant
                    j <= lines@.len(),
                    string_views(out@) == before + string_views(lines@).take(j as int),
                decreases lines@.len() - j,
            {
                let ghost prev = out@;
                out.push(lines[j].clone());
                assert(string_views(out@) =~= string_views(prev).push(lines@[j as int]@));
                assert(string_views(lines@).take(j + 1) =~= string_views(lines@).take(
                    j as int,
                ).push(lines@[j as int]@));
                j = j + 1;
            }
            assert(string_views(lines@).take(lines@.len() as int) =~= string_views(lines@));
            i = i + 1;
        }
        out
    }
}


proof fn lemma_fitted_keeps_start(line: Seq<char>, width: nat, fill: char)
    requires
        line.len() >= 2,
    ensures
        fitted(line, width, fill).len() >= 1,
        fitted(line, width, fill)[0] == line[0],
{
}

proof fn lemma_title_pieces_start(hs: Seq<Seq<char>>, w: nat, n: nat)
    requires
        n >= 1,
    ensures
        title_pieces(hs, w, n).len() >= 2,
        title_pieces(hs, w, n)[0] == '╭',
    decreases n,
{
    reveal_strlit("╭");
    reveal_strlit("┬");
    reveal_strlit(" ");
    let prev = title_pieces(hs, w, (n - 1) as nat);
    let piece = title_piece(hs[n - 1], n - 1, w);
    if n > 1 {
        lemma_title_pieces_start(hs, w, (n - 1) as nat);
        assert((prev + piece)[0] == prev[0]);
    } else {
        assert(prev.len() == 0);
        assert(piece[0] == '╭');
        assert((prev + piece)[0] == piece[0]);
    }
}

proof fn lemma_row_pieces_start(cols: Seq<Seq<Seq<char>>>, r: int, w: nat, n: nat)
    requires
        n >= 1,
    ensures
        row_pieces(cols, r, w, n).len() >= 2,
        row_pieces(cols, r, w, n)[0] == '│',
    decreases n,
{
    reveal_strlit("│ ");
    reveal_strlit(" ");
    let prev = row_pieces(cols, r, w, (n - 1) as nat);
    let piece = row_piece(cols[n - 1], r, w);
    assert(piece[0] == '│' && piece.len() >= 2);
    if n > 1 {
        lemma_row_pieces_start(cols, r, w, (n - 1) as nat);
        assert((prev + piece)[0] == prev[0]);
    } else {
        assert(prev.len() == 0);
        assert((prev + piece)[0] == piece[0]);
    }
}

proof fn lemma_bottom_pieces_start(n: nat, seg: nat)
    requires
        n >= 1,
        seg >= 1,
    ensures
        bottom_pieces(n, seg).len() >= 2,
        bottom_pieces(n, seg)[0] == '╰',
    decreases n,
{
    reveal_strlit("╰");
    reveal_strlit("┴");
    let prev = bottom_pieces((n - 1) as nat, seg);
    let piece = (if n == 1 {
        "╰"@
    } else {
        "┴"@
    }) + repeated('─', seg);
    if n > 1 {
        lemma_bottom_pieces_start((n - 1) as nat, seg);
        assert((prev + piece)[0] == prev[0]);
    } else {
        assert(prev.len() == 0);
        assert(piece[0] == '╰');
        assert((prev + piece)[0] == piece[0]);
    }
}

/// The frame of a box that can be drawn: its first line runs from `╭` to
/// `╮`, its last from `╰` to `╯`, and every line between starts and ends
/// with `│`.
pub proof fn lemma_box_frame<'a, const N: usize>(b: RenderBox<'a, N>, width: nat)
    requires
        b.fits(width),
    ensures
        ({
            let ls = b.spec_lines(width);
            &&& ls.len() >= 2
            &&& ls[0][0] == '╭' && ls[0].last() == '╮'
            &&& ls.last()[0] == '╰' && ls.last().last() == '╯'
            &&& forall|r: int|
                0 < r < ls.len() - 1 ==> (#[trigger] ls[r])[0] == '│' && ls[r].last() == '│'
        }),
{
    reveal_strlit("╭");
    reveal_strlit("╮");
    reveal_strlit("╰");
    reveal_strlit("╯");
    reveal_strlit("│");
    let cols = b.spec_columns()->0;
    let w = sat_sub((width / cols.len()) as int, 3);
    let lines = column_lines(cols, w);
    let ls = b.spec_lines(width);
    let top = top_line(b.spec_headers(), width, w);
    match b.spec_headers() {
        Some(hs) => {
            assert(hs.len() == N) by {
                broadcast use vstd::array::group_array_axioms;

            }
            lemma_title_pieces_start(hs, w, hs.len());
            lemma_fitted_keeps_start(title_pieces(hs, w, hs.len()), width, '─');
        },
        None => {},
    }
    assert(top[0] == '╭' && top.last() == '╮');
    lemma_bottom_pieces_start(cols.len(), sat_sub((width / cols.len()) as int, 1));
    lemma_fitted_keeps_start(
        bottom_pieces(cols.len(), sat_sub((width / cols.len()) as int, 1)),
        width,
        '─',
    );
    let bottom = bottom_line(cols.len(), width);
    assert(bottom[0] == '╰' && bottom.last() == '╯');
    assert forall|r: int| 0 < r < ls.len() - 1 implies (#[trigger] ls[r])[0] == '│'
        && ls[r].last() == '│' by {
        lemma_row_pieces_start(lines, r - 1, w, lines.len());
        lemma_fitted_keeps_start(row_pieces(lines, r - 1, w, lines.len()), width, ' ');
        assert(ls[r] == row_line(lines, r - 1, w, width));
    }
}


/// The widths of the first `n` columns, added up.
pub open spec fn widths_sum(sizes: Option<Seq<usize>>, width: nat, n_columns: nat, n: nat) -> nat
    decreases n,
{
    if n == 0 {
        0
    } else {
        widths_sum(sizes, width, n_columns, (n - 1) as nat) + column_width(
            sizes,
            width,
            n_columns,
            n - 1,
        )
    }
}

proof fn lemma_plain_concat(a: Seq<char>, b: Seq<char>)
    requires
        plain_text(a),
        plain_text(b),
    ensures
        plain_text(a + b),
{
    let c = a + b;
    assert forall|i: int| 0 <= i < c.len() implies #[trigger] c[i] != '\x03'
        && !crate::text::is_format_char(c[i]) && '\0' <= c[i] <= '\u{7f}' by {
        if i < a.len() {
            assert(c[i] == a[i]);
        } else {
            assert(c[i] == b[i - a.len()]);
        }
    }
}

proof fn lemma_spaces_plain(n: nat)
    ensures
        plain_text(repeated(' ', n)),
{
}

proof fn lemma_truncated_plain(cell: Seq<char>, w: nat)
    requires
        plain_text(cell),
        w > 3,
    ensures
        plain_text(truncated(cell, w)),
        truncated(cell, w).len() <= w,
{
    lemma_plain_irc_len(cell);
    reveal_strlit("...");
    if cell.len() > w {
        let head = cell.take(w - 3);
        assert forall|i: int| 0 <= i < head.len() implies #[trigger] head[i] != '\x03'
            && !crate::text::is_format_char(head[i]) && '\0' <= head[i] <= '\u{7f}' by {
            assert(head[i] == cell[i]);
        }
        lemma_plain_concat(head, "..."@);
    }
}

proof fn lemma_byte_len_plain(s: Seq<char>)
    requires
        plain_text(s),
        s.len() <= usize::MAX,
    ensures
        byte_len(s) == s.len(),
{
    vstd::utf8::is_ascii_chars_encode_utf8(s);
}

proof fn lemma_cells(cells: Seq<Seq<char>>, sizes: Option<Seq<usize>>, width: nat, n: nat)
    requires
        n <= cells.len(),
        forall|idx: int|
            0 <= idx < n ==> 3 < #[trigger] column_width(sizes, width, cells.len(), idx)
                <= usize::MAX,
        forall|idx: int| 0 <= idx < n ==> plain_text(#[trigger] cells[idx]),
    ensures
        plain_text(header_cells(cells, sizes, width, n)),
        header_cells(cells, sizes, width, n).len() == widths_sum(sizes, width, cells.len(), n),
        plain_text(body_cells(cells, sizes, width, n)),
        body_cells(cells, sizes, width, n).len() == widths_sum(sizes, width, cells.len(), n),
    decreases n,
{
    if n > 0 {
        lemma_cells(cells, sizes, width, (n - 1) as nat);
        let w = column_width(sizes, width, cells.len(), n - 1);
        let t = truncated(cells[n - 1], w);
        lemma_truncated_plain(cells[n - 1], w);
        lemma_byte_len_plain(t);
        lemma_plain_irc_len(t);
        lemma_spaces_plain(sat_sub(w as int, t.len() as int));
        lemma_plain_concat(t, repeated(' ', sat_sub(w as int, t.len() as int)));
        lemma_plain_concat(
            header_cells(cells, sizes, width, (n - 1) as nat),
            header_cell(cells[n - 1], w),
        );
        lemma_plain_concat(
            body_cells(cells, sizes, width, (n - 1) as nat),
            body_cell(cells[n - 1], w),
        );
    }
}

proof fn lemma_line_width(cells: Seq<Seq<char>>, sizes: Option<Seq<usize>>, width: nat)
    requires
        forall|idx: int|
            0 <= idx < cells.len() ==> 3 < #[trigger] column_width(sizes, width, cells.len(), idx)
                <= usize::MAX,
        forall|idx: int| 0 <= idx < cells.len() ==> plain_text(#[trigger] cells[idx]),
        widths_sum(sizes, width, cells.len(), cells.len()) <= width <= usize::MAX,
    ensures
        header_line(cells, sizes, width).len() == width,
        irc_len(header_line(cells, sizes, width)) == width,
        body_line(cells, sizes, width).len() == width,
        irc_len(body_line(cells, sizes, width)) == width,
{
    lemma_cells(cells, sizes, width, cells.len());
    let h = header_cells(cells, sizes, width, cells.len());
    let b = body_cells(cells, sizes, width, cells.len());
    lemma_byte_len_plain(h);
    lemma_plain_irc_len(b);
    lemma_spaces_plain(sat_sub(width as int, h.len() as int));
    lemma_spaces_plain(sat_sub(width as int, b.len() as int));
    lemma_plain_concat(h, repeated(' ', sat_sub(width as int, h.len() as int)));
    lemma_plain_concat(b, repeated(' ', sat_sub(width as int, b.len() as int)));
    lemma_plain_irc_len(header_line(cells, sizes, width));
    lemma_plain_irc_len(body_line(cells, sizes, width));
}

/// Every line of a table shows exactly `width` characters, when the cells
/// are plain ASCII text without IRC codes and the columns add up to at most
/// `width`.
pub proof fn lemma_table_width<const N: usize>(t: RenderBoxContent<N>, width: nat)
    requires
        t.fits(width),
        width <= usize::MAX,
        widths_sum(t.spec_sizes(), width, N as nat, N as nat) <= width,
        t.spec_header() is Some ==> forall|i: int|
            0 <= i < N ==> plain_text(#[trigger] t.spec_header()->0[i]),
        forall|r: int, i: int|
            0 <= r < t.spec_content().len() && 0 <= i < N ==> plain_text(
                #[trigger] t.spec_content()[r][i],
            ),
    ensures
        forall|k: int|
            0 <= k < t.spec_lines(width).len() ==> (#[trigger] t.spec_lines(width)[k]).len()
                == width && irc_len(t.spec_lines(width)[k]) == width,
{
    broadcast use vstd::array::group_array_axioms;

    let sizes = t.spec_sizes();
    assert forall|idx: int| 0 <= idx < N implies #[trigger] column_width(sizes, width, N as nat, idx)
        <= usize::MAX by {
        if sizes is None {
            assert(width / (N as nat) <= width) by (nonlinear_arith)
                requires
                    N > 0,
            ;
        }
    }
    let lines = t.spec_lines(width);
    assert forall|k: int| 0 <= k < lines.len() implies (#[trigger] lines[k]).len() == width
        && irc_len(lines[k]) == width by {
        if t.spec_header() is Some && k == 0 {
            let h = t.spec_header()->0;
            assert(h.len() == N);
            lemma_line_width(h, sizes, width);
        } else {
            let r = if t.spec_header() is Some {
                k - 1
            } else {
                k
            };
            let row = t.spec_content()[r];
            assert(row.len() == N);
            assert forall|i: int| 0 <= i < row.len() implies plain_text(#[trigger] row[i]) by {
                assert(plain_text(t.spec_content()[r][i]));
            }
            lemma_line_width(row, sizes, width);
        }
    }
}

} // verus!
