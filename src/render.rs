//! The text printed for a column: its dotted path, then one line with the
//! definition levels of all its data pages, in page order.

use vstd::prelude::*;
use vstd::string::*;

verus! {

/// The ten decimal digit characters, in order.
pub open spec fn digit_chars() -> Seq<char> {
    seq!['0', '1', '2', '3', '4', '5', '6', '7', '8', '9']
}

/// The decimal representation of `n`, without leading zeros.
pub open spec fn decimal(n: nat) -> Seq<char>
    decreases n,
{
    if n < 10 {
        seq![digit_chars()[n as int]]
    } else {
        decimal(n / 10) + seq![digit_chars()[(n % 10) as int]]
    }
}

/// Each level as a decimal number followed by one space.
pub open spec fn level_tokens(levels: Seq<u32>) -> Seq<char>
    decreases levels.len(),
{
    if levels.len() == 0 {
        Seq::empty()
    } else {
        level_tokens(levels.drop_last()) + decimal(levels.last() as nat) + seq![' ']
    }
}

/// The segments of a schema path joined by `.`.
pub open spec fn dotted(path: Seq<Seq<char>>) -> Seq<char>
    decreases path.len(),
{
    if path.len() == 0 {
        Seq::empty()
    } else if path.len() == 1 {
        path[0]
    } else {
        dotted(path.drop_last()) + seq!['.'] + path.last()
    }
}

/// The prefix of a line of definition levels.
pub open spec fn levels_prefix() -> Seq<char> {
    seq![' ', ' ', 'd', 'l', 'v', 'l', 's', ':', ' ']
}

/// The levels of all pages, one after the other, in page order.
pub open spec fn flatten(pages: Seq<Seq<u32>>) -> Seq<u32>
    decreases pages.len(),
{
    if pages.len() == 0 {
        Seq::empty()
    } else {
        flatten(pages.drop_last()) + pages.last()
    }
}

/// The levels line of a column whose pages hold `levels` in all, without
/// its newline: nothing where there are no levels.
pub open spec fn levels_text(levels: Seq<u32>) -> Seq<char> {
    if levels.len() == 0 {
        Seq::empty()
    } else {
        levels_prefix() + level_tokens(levels)
    }
}

/// What one page with `levels` adds to its column's levels line; `started`
/// tells whether an earlier page of the column already had levels.
pub open spec fn page_text(levels: Seq<u32>, started: bool) -> Seq<char> {
    if levels.len() == 0 {
        Seq::empty()
    } else if started {
        level_tokens(levels)
    } else {
        levels_prefix() + level_tokens(levels)
    }
}

/// The header line of a column: its dotted path, a colon and a newline.
pub open spec fn header_text(path: Seq<Seq<char>>) -> Seq<char> {
    dotted(path) + seq![':', '\n']
}

/// Everything printed for one column.
pub open spec fn column_text(path: Seq<Seq<char>>, pages: Seq<Seq<u32>>) -> Seq<char> {
    header_text(path) + levels_text(flatten(pages)) + seq!['\n']
}

/// The views of a list of strings.
pub open spec fn strings_view(v: Seq<String>) -> Seq<Seq<char>> {
    v.map_values(|s: String| s@)
}

/// The views of a list of level vectors.
pub open spec fn pages_view(v: Seq<Vec<u32>>) -> Seq<Seq<u32>> {
    v.map_values(|p: Vec<u32>| p@)
}

fn digit_str(d: u32) -> (r: &'static str)
    requires
        d < 10,
    ensures
        r@ == seq![digit_chars()[d as int]],
{
    proof {
        reveal_strlit("0");
        reveal_strlit("1");
        reveal_strlit("2");
        reveal_strlit("3");
        reveal_strlit("4");
        reveal_strlit("5");
        reveal_strlit("6");
        reveal_strlit("7");
        reveal_strlit("8");
        reveal_strlit("9");
    }
    match d {
        0 => "0",
        1 => "1",
        2 => "2",
        3 => "3",
        4 => "4",
        5 => "5",
        6 => "6",
        7 => "7",
        8 => "8",
        _ => "9",
    }
}

/// Appends the decimal representation of `n` to `out`.
pub fn push_decimal(out: &mut String, n: u32)
    ensures
        final(out)@ == old(out)@ + decimal(n as nat),
    decreases n,
{
    if n < 10 {
        out.append(digit_str(n));
    } else {
        push_decimal(out, n / 10);
        out.append(digit_str(n % 10));
        assert(out@ =~= old(out)@ + decimal(n as nat));
    }
}


/// Appends each level of `levels` as a decimal number followed by a space.
pub fn push_level_tokens(out: &mut String, levels: &Vec<u32>)
    ensures
        final(out)@ == old(out)@ + level_tokens(levels@),
{
    let mut i: usize = 0;
    while i < levels.len()
        invariant
            i <= levels@.len(),
            out@ == old(out)@ + level_tokens(levels@.subrange(0, i as int)),
        decreases levels@.len() - i,
    {
        push_decimal(out, levels[i]);
        out.append(" ");
        proof {
            reveal_strlit(" ");
            let next = levels@.subrange(0, i + 1);
            assert(next.drop_last() =~= levels@.subrange(0, i as int));
            assert(out@ =~= old(out)@ + level_tokens(next));
        }
        i = i + 1;
    }
    assert(levels@.subrange(0, levels@.len() as int) =~= levels@);
}

/// The header line of a column: its path segments joined by `.`, then `:`
/// and a newline.
pub fn header_line(path: &Vec<String>) -> (r: String)
    ensures
        r@ == header_text(strings_view(path@)),
{
    let mut out = String::new();
    let mut i: usize = 0;
    while i < path.len()
        invariant
            i <= path@.len(),
            out@ == dotted(strings_view(path@.subrange(0, i as int))),
        decreases path@.len() - i,
    {
        proof {
            reveal_strlit(".");
        }
        if i > 0 {
            out.append(".");
        }
        out.append(path[i].as_str());
        proof {
            let next = path@.subrange(0, i + 1);
            assert(strings_view(next).drop_last() =~= strings_view(path@.subrange(0, i as int)));
            if i == 0 {
                assert(strings_view(next) =~= seq![path@[0]@]);
            }
            assert(out@ =~= dotted(strings_view(next)));
        }
        i = i + 1;
    }
    assert(path@.subrange(0, path@.len() as int) =~= path@);
    out.append(":\n");
    proof {
        reveal_strlit(":\n");
    }
    assert(out@ =~= header_text(strings_view(path@)));
    out
}

/// The levels of one page with `levels` as printed on its column's levels
/// line: each followed by a space, and preceded by the `dlvls` prefix unless
/// an earlier page of the column had levels (`started`).
pub fn page_line(levels: &Vec<u32>, started: bool) -> (r: String)
    ensures
        r@ == page_text(levels@, started),
{
    let mut out = String::new();
    if levels.len() > 0 {
        if !started {
            out.append("  dlvls: ");
            proof {
                reveal_strlit("  dlvls: ");
                assert("  dlvls: "@ =~= levels_prefix());
            }
        }
        push_level_tokens(&mut out, levels);
    }
    assert(out@ =~= page_text(levels@, started));
    out
}

/// The tokens of two level sequences, one after the other, are the tokens of
/// the two sequences joined.
pub proof fn lemma_tokens_append(a: Seq<u32>, b: Seq<u32>)
    ensures
        level_tokens(a + b) == level_tokens(a) + level_tokens(b),
    decreases b.len(),
{
    if b.len() == 0 {
        assert(a + b =~= a);
        assert(level_tokens(b) =~= Seq::<char>::empty());
        assert(level_tokens(a) + level_tokens(b) =~= level_tokens(a));
    } else {
        lemma_tokens_append(a, b.drop_last());
        assert((a + b).drop_last() =~= a + b.drop_last());
        assert(level_tokens(a + b) =~= level_tokens(a) + level_tokens(b));
    }
}

/// Adding a page's text to the levels line so far gives the levels line of
/// the pages so far and that page.
proof fn lemma_levels_text_step(done: Seq<u32>, levels: Seq<u32>)
    ensures
        levels_text(done) + page_text(levels, done.len() > 0) == levels_text(done + levels),
{
    lemma_tokens_append(done, levels);
    if levels.len() == 0 {
        assert(done + levels =~= done);
        assert(levels_text(done) + page_text(levels, done.len() > 0) =~= levels_text(done));
    } else if done.len() == 0 {
        assert(done + levels =~= levels);
        assert(level_tokens(done) =~= Seq::<char>::empty());
        assert(levels_text(done) + page_text(levels, false) =~= levels_text(levels));
    } else {
        assert(levels_text(done) + page_text(levels, true) =~= levels_text(done + levels));
    }
}

/// Everything printed for one column: the header line, a line for each page
/// with levels (`pages[i]` holds the levels of the column's `i`-th data page),
/// and a closing newline.
pub fn column_output(path: &Vec<String>, pages: &Vec<Vec<u32>>) -> (r: String)
    ensures
        r@ == column_text(strings_view(path@), pages_view(pages@)),
{
    let mut out = header_line(path);
    let ghost head = out@;
    let mut started = false;
    let mut i: usize = 0;
    while i < pages.len()
        invariant
            i <= pages@.len(),
            head == header_text(strings_view(path@)),
            started == (flatten(pages_view(pages@.subrange(0, i as int))).len() > 0),
            out@ == head + levels_text(flatten(pages_view(pages@.subrange(0, i as int)))),
        decreases pages@.len() - i,
    {
        let line = page_line(&pages[i], started);
        out.append(line.as_str());
        proof {
            let done = flatten(pages_view(pages@.subrange(0, i as int)));
            let next = pages@.subrange(0, i + 1);
            assert(pages_view(next).drop_last() =~= pages_view(pages@.subrange(0, i as int)));
            assert(pages_view(next).last() == pages@[i as int]@);
            assert(flatten(pages_view(next)) == done + pages@[i as int]@);
            lemma_levels_text_step(done, pages@[i as int]@);
            assert(out@ =~= head + levels_text(flatten(pages_view(next))));
        }
        started = started || pages[i].len() > 0;
        i = i + 1;
    }
    assert(pages@.subrange(0, pages@.len() as int) =~= pages@);
    out.append("\n");
    proof {
        reveal_strlit("\n");
    }
    assert(out@ =~= column_text(strings_view(path@), pages_view(pages@)));
    out
}


/// The levels line of a column, written page by page.
#[derive(Debug)]
pub struct LevelsLine {
    /// Whether an earlier page already had levels, so the prefix is out.
    pub started: bool,
}

impl LevelsLine {
    /// A line to which no page has contributed yet.
    pub fn new() -> (r: LevelsLine)
        ensures
            !r.started,
    {
        LevelsLine { started: false }
    }

    /// The text that a page with `levels` adds to the line.
    pub fn add_page(&mut self, levels: &Vec<u32>) -> (r: String)
        ensures
            r@ == page_text(levels@, old(self).started),
            final(self).started == (old(self).started || levels@.len() > 0),
    {
        let r = page_line(levels, self.started);
        self.started = self.started || levels.len() > 0;
        r
    }
}

} // verus!
