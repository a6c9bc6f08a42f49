use vstd::prelude::*;
use vstd::string::*;

verus! {

/// Width and height of a rectangle on the terminal, each possibly unset.
#[derive(Debug, Copy, Clone)]
pub struct Size {
    pub width: Option<usize>,
    pub height: Option<usize>,
}

impl Size {
    pub fn new(w: usize, h: usize) -> (r: Self)
        ensures
            r.width == Some(w),
            r.height == Some(h),
    {
        Self { width: Some(w), height: Some(h) }
    }

    pub fn only_width(w: usize) -> (r: Self)
        ensures
            r.width == Some(w),
            r.height is None,
    {
        Self { width: Some(w), height: None }
    }

    pub fn only_height(h: usize) -> (r: Self)
        ensures
            r.width is None,
            r.height == Some(h),
    {
        Self { width: None, height: Some(h) }
    }
}

/// The terminal's size and, optionally, the size that boxes are drawn at.
pub struct BuildContext {
    pub size: Option<Size>,
    pub terminal_size: Size,
}

impl BuildContext {
    pub fn new(terminal_size: Size) -> (r: Self)
        ensures
            r.size is None,
            r.terminal_size == terminal_size,
    {
        Self { size: None, terminal_size }
    }

    pub fn size(&mut self, size: Size)
        ensures
            final(self).size == Some(size),
            final(self).terminal_size == old(self).terminal_size,
    {
        self.size = Some(size);
    }

    /// The width of a box: the chosen width where one is set, else the terminal's.
    pub open spec fn width_spec(&self) -> int {
        let terminal_width = self.terminal_size.width.unwrap() as int;
        match self.size {
            Some(size) => match size.width {
                Some(w) => w as int,
                None => terminal_width,
            },
            None => terminal_width,
        }
    }
}

/// `s` repeated `n` times.
pub open spec fn repeat(s: Seq<char>, n: nat) -> Seq<char>
    decreases n,
{
    if n == 0 {
        Seq::empty()
    } else {
        repeat(s, (n - 1) as nat) + s
    }
}

/// A horizontal border of width `w`: the corners at both ends, `text` from the second
/// column on, cut to fit, and `between` in the columns left over.
pub open spec fn horizontal(
    w: nat,
    start: Seq<char>,
    end: Seq<char>,
    between: Seq<char>,
    text: Seq<char>,
) -> Seq<char> {
    if w == 0 {
        Seq::empty()
    } else if w == 1 {
        start
    } else {
        let inner = (w - 2) as nat;
        let k = if text.len() < inner {
            text.len()
        } else {
            inner
        };
        start + text.subrange(0, k as int) + repeat(between, (inner - k) as nat) + end + "\n"@
    }
}

/// The rows of a box's content after the characters of `content`, for an inner width
/// `inner`: the text so far, with the last row still open, and the characters on it.
/// A box without inner columns shows one empty row for each line.
pub open spec fn content_rows(content: Seq<char>, inner: nat) -> (Seq<char>, nat)
    decreases content.len(),
{
    if content.len() == 0 {
        ("│"@, 0)
    } else {
        let (text, count) = content_rows(content.drop_last(), inner);
        let ch = content.last();
        if ch == '\n' {
            (text + repeat(" "@, (inner - count) as nat) + "│\n│"@, 0)
        } else if inner == 0 {
            (text, count)
        } else if count >= inner {
            (text + "│\n│"@ + seq![ch], 1)
        } else {
            (text + seq![ch], count + 1)
        }
    }
}

/// The content of a box: each line of `content` between two side borders, padded to
/// the inner width and wrapped where it is longer.
pub open spec fn content_block(content: Seq<char>, inner: nat) -> Seq<char> {
    let (text, count) = content_rows(content, inner);
    text + repeat(" "@, (inner - count) as nat) + "│\n"@
}

proof fn lemma_content_rows_count(content: Seq<char>, inner: nat)
    ensures
        content_rows(content, inner).1 <= inner,
    decreases content.len(),
{
    if content.len() > 0 {
        lemma_content_rows_count(content.drop_last(), inner);
    }
}

fn push_repeat(s: &mut String, unit: &str, n: usize)
    ensures
        final(s)@ == old(s)@ + repeat(unit@, n as nat),
{
    let mut i: usize = 0;
    assert(s@ =~= old(s)@ + repeat(unit@, 0));
    while i < n
        invariant
            i <= n,
            s@ == old(s)@ + repeat(unit@, i as nat),
        decreases n - i,
    {
        s.append(unit);
        i += 1;
        assert(s@ =~= old(s)@ + repeat(unit@, i as nat));
    }
}

/// A box with a title, drawn at the width its context gives.
pub struct UIBox<'a> {
    pub title: String,
    pub content: String,
    pub context: &'a BuildContext,
}

impl<'a> UIBox<'a> {
    pub fn new(context: &'a BuildContext, title: String, content: String) -> (r: UIBox<'a>)
        ensures
            r.title == title,
            r.content == content,
            *r.context == *context,
    {
        UIBox { context, title, content }
    }

    /// The width of the box, from its context.
    pub fn computed_width(&self) -> (r: usize)
        requires
            self.context.terminal_size.width is Some,
        ensures
            r == self.context.width_spec(),
    {
        let terminal_width = match self.context.terminal_size.width {
            Some(w) => w,
            None => 0,
        };
        match self.context.size {
            Some(size) => match size.width {
                Some(w) => w,
                None => terminal_width,
            },
            None => terminal_width,
        }
    }

    /// The whole box, row by row, each row ending in a line break.
    pub open spec fn rendered(&self) -> Seq<char> {
        let w = self.context.width_spec() as nat;
        horizontal(w, "┌"@, "┐"@, "─"@, self.title@) + content_block(self.content@, (w - 2) as nat) + horizontal(
            w,
            "└"@,
            "┘"@,
            "─"@,
            Seq::empty(),
        )
    }

    /// Draws the box into a string: the title in the top border, the content between
    /// side borders, then the bottom border.
    pub fn render(self) -> (r: String)
        requires
            self.context.terminal_size.width is Some,
            self.context.width_spec() >= 2,
        ensures
            r@ == self.rendered(),
    {
        let w = self.computed_width();
        let mut out = self.render_header(w);
        let body = self.render_content(w);
        out.append(body.as_str());
        let footer = self.render_footer(w);
        out.append(footer.as_str());
        out
    }

    fn render_header(&self, computed_width: usize) -> (r: String)
        ensures
            r@ == horizontal(computed_width as nat, "┌"@, "┐"@, "─"@, self.title@),
    {
        render_horizontal(computed_width, "┌", "┐", "─", self.title.as_str())
    }

    fn render_footer(&self, computed_width: usize) -> (r: String)
        ensures
            r@ == horizontal(computed_width as nat, "└"@, "┘"@, "─"@, Seq::empty()),
    {
        let empty = String::new();
        render_horizontal(computed_width, "└", "┘", "─", empty.as_str())
    }

    fn render_content(&self, computed_width: usize) -> (r: String)
        requires
            computed_width >= 2,
        ensures
            r@ == content_block(self.content@, (computed_width - 2) as nat),
    {
        let inner = computed_width - 2;
        let content = self.content.as_str();
        let n = content.unicode_len();
        proof {
            reveal_strlit("│");
            reveal_strlit("│\n│");
            reveal_strlit("│\n");
            reveal_strlit(" ");
        }
        let mut out = String::from_str("│");
        let mut count: usize = 0;
        let mut i: usize = 0;
        assert(content@.subrange(0, 0) =~= Seq::<char>::empty());
        while i < n
            invariant
                n == content@.len(),
                i <= n,
                inner == computed_width - 2,
                content@ == self.content@,
                (out@, count as nat) == content_rows(content@.subrange(0, i as int), inner as nat),
            decreases n - i,
        {
            proof {
                lemma_content_rows_count(content@.subrange(0, i as int), inner as nat);
                assert(content@.subrange(0, i + 1).drop_last() =~= content@.subrange(0, i as int));
            }
            let ch = content.get_char(i);
            let one = content.substring_char(i, i + 1);
            assert(one@ =~= seq![ch]);
            if ch == '\n' {
                push_repeat(&mut out, " ", inner - count);
                out.append("│\n│");
                count = 0;
            } else if inner == 0 {
            } else if count >= inner {
                out.append("│\n│");
                out.append(one);
                count = 1;
            } else {
                out.append(one);
                count = count + 1;
            }
            i += 1;
        }
        proof {
            lemma_content_rows_count(content@, inner as nat);
            assert(content@.subrange(0, n as int) =~= content@);
        }
        push_repeat(&mut out, " ", inner - count);
        out.append("│\n");
        out
    }
}

/// One horizontal border of a box; see `horizontal`.
pub fn render_horizontal(computed_width: usize, start: &str, end: &str, between: &str, text: &str) -> (r: String)
    ensures
        r@ == horizontal(computed_width as nat, start@, end@, between@, text@),
{
    if computed_width == 0 {
        return String::new();
    }
    let mut out = String::from_str(start);
    if computed_width == 1 {
        return out;
    }
    let inner = computed_width - 2;
    let len = text.unicode_len();
    let k = if len < inner {
        len
    } else {
        inner
    };
    out.append(text.substring_char(0, k));
    push_repeat(&mut out, between, inner - k);
    out.append(end);
    proof {
        reveal_strlit("\n");
    }
    out.append("\n");
    out
}

} // verus!
