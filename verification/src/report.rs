//! Text pieces of the self-contained HTML report: escaping, the inline pixel
//! wordmark, and the run-artifact schema version.
use vstd::prelude::*;

use crate::text::{chars_of, dec, push_char, push_dec, push_str};

verus! {

/// Bump when the on-disk JSON shape changes in a breaking way.
pub const SCHEMA_VERSION: u32 = 1;

/// The schema version assumed for artifacts that do not name one.
pub fn default_schema_version() -> (v: u32)
    ensures
        v == SCHEMA_VERSION,
{
    SCHEMA_VERSION
}

/// HTML escape of one character.
pub open spec fn html_escape_char(c: char) -> Seq<char> {
    if c == '&' {
        "&amp;"@
    } else if c == '<' {
        "&lt;"@
    } else if c == '>' {
        "&gt;"@
    } else if c == '"' {
        "&quot;"@
    } else {
        seq![c]
    }
}

/// HTML escape of a string: `&`, `<`, `>` and `"` become entities.
pub open spec fn html_escaped(s: Seq<char>) -> Seq<char>
    decreases s.len(),
{
    if s.len() == 0 {
        Seq::empty()
    } else {
        html_escaped(s.drop_last()) + html_escape_char(s.last())
    }
}

/// Escape text for HTML body and attribute positions.
pub fn escape(s: &str) -> (r: String)
    ensures
        r@ == html_escaped(s@),
{
    let cs = chars_of(s);
    let mut out = String::new();
    let mut i: usize = 0;
    while i < cs.len()
        invariant
            i <= cs@.len(),
            cs@ == s@,
            out@ == html_escaped(cs@.take(i as int)),
        decreases cs@.len() - i,
    {
        let c = cs[i];
        if c == '&' {
            push_str(&mut out, "&amp;");
        } else if c == '<' {
            push_str(&mut out, "&lt;");
        } else if c == '>' {
            push_str(&mut out, "&gt;");
        } else if c == '"' {
            push_str(&mut out, "&quot;");
        } else {
            push_char(&mut out, c);
            assert(seq![c] =~= Seq::<char>::empty().push(c));
        }
        assert(cs@.take(i + 1).drop_last() =~= cs@.take(i as int));
        i = i + 1;
        assert(out@ =~= html_escaped(cs@.take(i as int)));
    }
    assert(cs@.take(cs@.len() as int) =~= cs@);
    out
}

/// Escape of one character inside an inline JSON `<script>` block.
pub open spec fn script_escape_char(c: char) -> Seq<char> {
    if c == '<' {
        "\\u003c"@
    } else {
        seq![c]
    }
}

/// `<` becomes `\u003c`, so the payload can never close its `<script>` tag.
pub open spec fn script_escaped(s: Seq<char>) -> Seq<char>
    decreases s.len(),
{
    if s.len() == 0 {
        Seq::empty()
    } else {
        script_escaped(s.drop_last()) + script_escape_char(s.last())
    }
}

/// Escape JSON for embedding inside a `<script>` element.
pub fn escape_json_script(s: &str) -> (r: String)
    ensures
        r@ == script_escaped(s@),
{
    let cs = chars_of(s);
    let mut out = String::new();
    let mut i: usize = 0;
    while i < cs.len()
        invariant
            i <= cs@.len(),
            cs@ == s@,
            out@ == script_escaped(cs@.take(i as int)),
        decreases cs@.len() - i,
    {
        let c = cs[i];
        if c == '<' {
            push_str(&mut out, "\\u003c");
        } else {
            push_char(&mut out, c);
            assert(seq![c] =~= Seq::<char>::empty().push(c));
        }
        assert(cs@.take(i + 1).drop_last() =~= cs@.take(i as int));
        i = i + 1;
        assert(out@ =~= script_escaped(cs@.take(i as int)));
    }
    assert(cs@.take(cs@.len() as int) =~= cs@);
    out
}

/// Law: the escaped text holds no `<` at all, so it cannot end a `<script>` block.
pub proof fn law_script_escape_has_no_open_angle(s: Seq<char>)
    ensures
        !script_escaped(s).contains('<'),
    decreases s.len(),
{
    if s.len() > 0 {
        law_script_escape_has_no_open_angle(s.drop_last());
        let a = script_escaped(s.drop_last());
        let b = script_escape_char(s.last());
        assert(!b.contains('<')) by {
            if s.last() == '<' {
                reveal_strlit("\\u003c");
            }
        }
        assert forall|i: int| 0 <= i < (a + b).len() implies (a + b)[i] != '<' by {
            if i < a.len() {
                assert((a + b)[i] == a[i]);
            } else {
                assert((a + b)[i] == b[i - a.len()]);
            }
        }
    }
}

/// Law: HTML-escaped text holds no `<`, `>` or `"`, so it cannot open a tag or
/// end an attribute value.
pub proof fn law_html_escape_is_inert(s: Seq<char>)
    ensures
        !html_escaped(s).contains('<'),
        !html_escaped(s).contains('>'),
        !html_escaped(s).contains('"'),
    decreases s.len(),
{
    if s.len() > 0 {
        law_html_escape_is_inert(s.drop_last());
        let a = html_escaped(s.drop_last());
        let b = html_escape_char(s.last());
        reveal_strlit("&amp;");
        reveal_strlit("&lt;");
        reveal_strlit("&gt;");
        reveal_strlit("&quot;");
        assert forall|i: int|
            0 <= i < (a + b).len() implies (a + b)[i] != '<' && (a + b)[i] != '>' && (a + b)[i]
            != '"' by {
            if i < a.len() {
                assert((a + b)[i] == a[i]);
            } else {
                assert((a + b)[i] == b[i - a.len()]);
            }
        }
    }
}

/// `s` cut to `max` characters, the last replaced by `…` when it was longer.
pub open spec fn truncated(s: Seq<char>, max: nat) -> Seq<char> {
    if s.len() <= max {
        s
    } else {
        s.take(if max >= 1 {
            max - 1
        } else {
            0
        }).push('…')
    }
}

/// Shorten `s` to at most `max` characters for fixed-width tables.
pub fn truncate(s: &str, max: usize) -> (r: String)
    ensures
        r@ == truncated(s@, max as nat),
{
    let cs = chars_of(s);
    if cs.len() <= max {
        String::from_str(s)
    } else {
        let keep = if max >= 1 {
            max - 1
        } else {
            0
        };
        let mut out = String::new();
        let mut i: usize = 0;
        while i < keep
            invariant
                i <= keep < cs@.len(),
                out@ == cs@.take(i as int),
            decreases keep - i,
        {
            push_char(&mut out, cs[i]);
            i = i + 1;
            assert(out@ =~= cs@.take(i as int));
        }
        push_char(&mut out, '…');
        out
    }
}

// ---------------------------------------------------------------------------
// Pixel wordmark
// ---------------------------------------------------------------------------

/// Row `y` of glyph `g` (G, U, S, T) as eight bits, leftmost pixel highest.
pub open spec fn glyph_bits(g: int, y: int) -> u8 {
    if g == 0 {
        if y == 0 || y == 7 {
            126
        } else if y == 2 || y == 3 {
            192
        } else if y == 4 {
            207
        } else {
            195
        }
    } else if g == 1 {
        if y == 7 {
            126
        } else {
            195
        }
    } else if g == 2 {
        if y == 0 || y == 3 || y == 7 {
            126
        } else if y == 2 {
            192
        } else if y == 4 || y == 5 {
            3
        } else {
            195
        }
    } else {
        if y == 0 || y == 1 {
            255
        } else {
            24
        }
    }
}

/// Row `y` of glyph `g`.
fn glyph_row(g: u64, y: u64) -> (r: u8)
    requires
        g < 4,
        y < 8,
    ensures
        r == glyph_bits(g as int, y as int),
{
    if g == 0 {
        if y == 0 || y == 7 {
            126
        } else if y == 2 || y == 3 {
            192
        } else if y == 4 {
            207
        } else {
            195
        }
    } else if g == 1 {
        if y == 7 {
            126
        } else {
            195
        }
    } else if g == 2 {
        if y == 0 || y == 3 || y == 7 {
            126
        } else if y == 2 {
            192
        } else if y == 4 || y == 5 {
            3
        } else {
            195
        }
    } else {
        if y == 0 || y == 1 {
            255
        } else {
            24
        }
    }
}

/// The bit weight of column `x` (0 is the leftmost, most significant bit).
pub open spec fn column_weight(x: int) -> int {
    if x == 0 {
        128
    } else if x == 1 {
        64
    } else if x == 2 {
        32
    } else if x == 3 {
        16
    } else if x == 4 {
        8
    } else if x == 5 {
        4
    } else if x == 6 {
        2
    } else {
        1
    }
}

/// Pixel `(x, y)` of glyph `g` is lit.
pub open spec fn lit(g: int, y: int, x: int) -> bool {
    (glyph_bits(g, y) as int / column_weight(x)) % 2 == 1
}

/// Whether pixel `(x, y)` of glyph `g` is lit.
fn is_lit(g: u64, y: u64, x: u64) -> (b: bool)
    requires
        g < 4,
        y < 8,
        x < 8,
    ensures
        b == lit(g as int, y as int, x as int),
{
    let row = glyph_row(g, y) as u64;
    let w: u64 = if x == 0 {
        128
    } else if x == 1 {
        64
    } else if x == 2 {
        32
    } else if x == 3 {
        16
    } else if x == 4 {
        8
    } else if x == 5 {
        4
    } else if x == 6 {
        2
    } else {
        1
    };
    (row / w) % 2 == 1
}

/// One square of the wordmark.
pub open spec fn rect_svg(x: nat, y: nat, fill: Seq<char>) -> Seq<char> {
    "<rect x=\""@ + dec(x) + "\" y=\""@ + dec(y) + "\" width=\"3\" height=\"3\" fill=\""@ + fill
        + "\"/>"@
}

/// The squares drawn for pixel cell `k` (glyph `k / 64`, row `(k / 8) % 8`,
/// column `k % 8`): a shadow offset by one unit, then the pixel, highlighted
/// on its top and left edges.
pub open spec fn cell_svg(k: int) -> Seq<char> {
    let g = k / 64;
    let y = (k / 8) % 8;
    let x = k % 8;
    if lit(g, y, x) {
        let px = (g * 26 + x * 3) as nat;
        let py = (y * 3) as nat;
        let up = y == 0 || !lit(g, y - 1, x);
        let left = x == 0 || !lit(g, y, x - 1);
        rect_svg(px + 1, py + 1, "#1a4f4a"@) + rect_svg(
            px,
            py,
            if up || left {
                "#c8f6ef"@
            } else {
                "#3dd6c6"@
            },
        )
    } else {
        Seq::empty()
    }
}

/// The squares of the first `k` cells.
pub open spec fn cells_svg(k: int) -> Seq<char>
    decreases k,
{
    if k <= 0 {
        Seq::empty()
    } else {
        cells_svg(k - 1) + cell_svg(k - 1)
    }
}

/// The GUST pixel wordmark as an inline SVG element.
pub open spec fn wordmark_svg() -> Seq<char> {
    "<svg xmlns=\"http://www.w3.org/2000/svg\" viewBox=\"0 0 "@ + dec(104) + " "@ + dec(26)
        + "\" role=\"img\" aria-label=\"Gust\">"@ + cells_svg(256) + "</svg>"@
}

/// Appends one square.
fn push_rect(out: &mut String, x: u64, y: u64, fill: &str)
    ensures
        final(out)@ == old(out)@ + rect_svg(x as nat, y as nat, fill@),
{
    push_str(out, "<rect x=\"");
    push_dec(out, x);
    push_str(out, "\" y=\"");
    push_dec(out, y);
    push_str(out, "\" width=\"3\" height=\"3\" fill=\"");
    push_str(out, fill);
    push_str(out, "\"/>");
    assert(final(out)@ =~= old(out)@ + rect_svg(x as nat, y as nat, fill@));
}

/// Pixel GUST wordmark, inlined so the HTML report stays a single file.
pub fn pixel_gust_svg() -> (s: String)
    ensures
        s@ == wordmark_svg(),
{
    let mut rects = String::new();
    let mut k: u64 = 0;
    while k < 256
        invariant
            k <= 256,
            rects@ == cells_svg(k as int),
        decreases 256 - k,
    {
        let g = k / 64;
        let y = (k / 8) % 8;
        let x = k % 8;
        let ghost before = rects@;
        if is_lit(g, y, x) {
            let px = g * 26 + x * 3;
            let py = y * 3;
            let up = y == 0 || !is_lit(g, y - 1, x);
            let left = x == 0 || !is_lit(g, y, x - 1);
            push_rect(&mut rects, px + 1, py + 1, "#1a4f4a");
            if up || left {
                push_rect(&mut rects, px, py, "#c8f6ef");
            } else {
                push_rect(&mut rects, px, py, "#3dd6c6");
            }
        }
        assert(rects@ =~= before + cell_svg(k as int));
        k = k + 1;
    }
    let mut out = String::new();
    push_str(&mut out, "<svg xmlns=\"http://www.w3.org/2000/svg\" viewBox=\"0 0 ");
    push_dec(&mut out, 104);
    push_str(&mut out, " ");
    push_dec(&mut out, 26);
    push_str(&mut out, "\" role=\"img\" aria-label=\"Gust\">");
    push_str(&mut out, rects.as_str());
    push_str(&mut out, "</svg>");
    assert(out@ =~= wordmark_svg());
    out
}

} // verus!
