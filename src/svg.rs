use vstd::prelude::*;
use vstd::seq_lib::lemma_flatten_concat;
use vstd::arithmetic::div_mod::lemma_fundamental_div_mod_converse;
use crate::rows::rows_spec;

verus! {

/// The character of hexadecimal digit `d` (upper case), for `d < 16`.
pub open spec fn hex_digit(d: nat) -> char {
    seq!['0', '1', '2', '3', '4', '5', '6', '7', '8', '9', 'A', 'B', 'C', 'D', 'E', 'F'][d as int]
}

/// The decimal text of `n`, without leading zeros.
pub open spec fn decimal(n: nat) -> Seq<char>
    decreases n,
{
    if n < 10 {
        seq![hex_digit(n)]
    } else {
        decimal(n / 10).push(hex_digit(n % 10))
    }
}

/// Two upper-case hexadecimal digits for a byte, high digit first.
pub open spec fn hex_byte(b: u8) -> Seq<char> {
    seq![hex_digit(b as nat / 16), hex_digit(b as nat % 16)]
}

/// A fill color `#RRGGBB`.
pub open spec fn fill_spec(red: u8, green: u8, blue: u8) -> Seq<char> {
    seq!['#'] + hex_byte(red) + hex_byte(green) + hex_byte(blue)
}

fn digit_text(d: u8) -> (t: &'static str)
    requires
        d < 16,
    ensures
        t@ == seq![hex_digit(d as nat)],
{
    match d {
        0 => { proof { reveal_strlit("0"); } "0" },
        1 => { proof { reveal_strlit("1"); } "1" },
        2 => { proof { reveal_strlit("2"); } "2" },
        3 => { proof { reveal_strlit("3"); } "3" },
        4 => { proof { reveal_strlit("4"); } "4" },
        5 => { proof { reveal_strlit("5"); } "5" },
        6 => { proof { reveal_strlit("6"); } "6" },
        7 => { proof { reveal_strlit("7"); } "7" },
        8 => { proof { reveal_strlit("8"); } "8" },
        9 => { proof { reveal_strlit("9"); } "9" },
        10 => { proof { reveal_strlit("A"); } "A" },
        11 => { proof { reveal_strlit("B"); } "B" },
        12 => { proof { reveal_strlit("C"); } "C" },
        13 => { proof { reveal_strlit("D"); } "D" },
        14 => { proof { reveal_strlit("E"); } "E" },
        _ => { proof { reveal_strlit("F"); } "F" },
    }
}

fn write_decimal(out: &mut String, n: u64)
    ensures
        final(out)@ == old(out)@ + decimal(n as nat),
    decreases n,
{
    if n >= 10 {
        write_decimal(out, n / 10);
    }
    out.append(digit_text((n % 10) as u8));
    assert(final(out)@ =~= old(out)@ + decimal(n as nat));
}

fn write_hex_byte(out: &mut String, b: u8)
    ensures
        final(out)@ == old(out)@ + hex_byte(b),
{
    out.append(digit_text(b / 16));
    out.append(digit_text(b % 16));
    assert(final(out)@ =~= old(out)@ + hex_byte(b));
}

fn write_fill(out: &mut String, red: u8, green: u8, blue: u8)
    ensures
        final(out)@ == old(out)@ + fill_spec(red, green, blue),
{
    proof { reveal_strlit("#"); }
    out.append("#");
    write_hex_byte(out, red);
    write_hex_byte(out, green);
    write_hex_byte(out, blue);
    assert(final(out)@ =~= old(out)@ + fill_spec(red, green, blue));
}

/// The fill color of a pixel: `#` and the red, green and blue channels as two
/// upper-case hexadecimal digits each.
pub fn fill_color(red: u8, green: u8, blue: u8) -> (s: String)
    ensures
        s@ == fill_spec(red, green, blue),
{
    let mut s = String::new();
    write_fill(&mut s, red, green, blue);
    assert(s@ =~= fill_spec(red, green, blue));
    s
}

/// The document's opening tag, which declares its width and height.
pub open spec fn open_tag(w: nat, h: nat) -> Seq<char> {
    "<svg width=\""@ + decimal(w) + "\" height=\""@ + decimal(h)
        + "\" xmlns=\"http://www.w3.org/2000/svg\">"@
}

/// The document's closing tag.
pub open spec fn close_tag() -> Seq<char> {
    "</svg>"@
}

/// A unit rectangle at `(x, y)` filled with the given color.
pub open spec fn rect_spec(x: nat, y: nat, red: u8, green: u8, blue: u8) -> Seq<char> {
    "<rect x=\""@ + decimal(x) + "\" y=\""@ + decimal(y) + "\" width=\"1\" height=\"1\" fill=\""@
        + fill_spec(red, green, blue) + "\" />"@
}

/// The rectangle for pixel `x` of `row`, the row at height `y`: the pixel is
/// the four bytes from `4 * x` on, of which the fourth (alpha) is not used.
pub open spec fn pixel_rect(row: Seq<u8>, x: nat, y: nat) -> Seq<char> {
    let i = 4 * x as int;
    rect_spec(x, y, row[i], row[i + 1], row[i + 2])
}

/// The rectangles of one row, left to right, one per whole group of four
/// bytes.
pub open spec fn row_rects(row: Seq<u8>, y: nat) -> Seq<Seq<char>> {
    Seq::new(row.len() / 4, |x: int| pixel_rect(row, x as nat, y))
}

/// The rectangles of all rows: top to bottom, each row left to right.
pub open spec fn image_rects(rows: Seq<Seq<u8>>) -> Seq<Seq<char>>
    decreases rows.len(),
{
    if rows.len() == 0 {
        Seq::empty()
    } else {
        image_rects(rows.drop_last()) + row_rects(rows.last(), (rows.len() - 1) as nat)
    }
}

/// The whole document: the opening tag, every rectangle, the closing tag.
pub open spec fn svg_spec(rows: Seq<Seq<u8>>, w: nat, h: nat) -> Seq<char> {
    open_tag(w, h) + image_rects(rows).flatten() + close_tag()
}

fn write_rect(out: &mut String, x: u64, y: u64, red: u8, green: u8, blue: u8)
    ensures
        final(out)@ == old(out)@ + rect_spec(x as nat, y as nat, red, green, blue),
{
    out.append("<rect x=\"");
    write_decimal(out, x);
    out.append("\" y=\"");
    write_decimal(out, y);
    out.append("\" width=\"1\" height=\"1\" fill=\"");
    write_fill(out, red, green, blue);
    out.append("\" />");
    assert(final(out)@ =~= old(out)@ + rect_spec(x as nat, y as nat, red, green, blue));
}

/// Writes the SVG document for the given rows: an opening tag that declares
/// `width` and `height`, then one unit rectangle per pixel (row `y` top to
/// bottom, pixel `x` left to right, four bytes per pixel, alpha unused, a
/// partial group at a row's end skipped), then the closing tag.
pub fn create_svg_from_vectors(vectors: Vec<Vec<u8>>, width: u32, height: u32) -> (svg: String)
    ensures
        svg@ == svg_spec(vectors.deep_view(), width as nat, height as nat),
{
    let ghost rows = vectors.deep_view();
    let mut svg = String::new();
    svg.append("<svg width=\"");
    write_decimal(&mut svg, width as u64);
    svg.append("\" height=\"");
    write_decimal(&mut svg, height as u64);
    svg.append("\" xmlns=\"http://www.w3.org/2000/svg\">");
    assert(svg@ =~= open_tag(width as nat, height as nat));
    assert(rows.take(0) =~= Seq::<Seq<u8>>::empty());
    let mut y: usize = 0;
    while y < vectors.len()
        invariant
            rows == vectors.deep_view(),
            y <= vectors@.len(),
            svg@ == open_tag(width as nat, height as nat) + image_rects(rows.take(y as int)).flatten(),
        decreases vectors@.len() - y,
    {
        let row = &vectors[y];
        assert(row@ == rows[y as int]);
        let len: usize = row.len();
        let count: usize = len / 4;
        let ghost before = svg@;
        let ghost elems = row_rects(row@, y as nat);
        assert(elems.take(0) =~= Seq::<Seq<char>>::empty());
        let mut x: usize = 0;
        while x < count
            invariant
                y < rows.len(),
                row@ == rows[y as int],
                row@.len() <= usize::MAX,
                count == row@.len() / 4,
                elems == row_rects(row@, y as nat),
                x <= count,
                svg@ == before + elems.take(x as int).flatten(),
            decreases count - x,
        {
            assert(4 * x + 3 < row@.len()) by (nonlinear_arith)
                requires x < count, count == row@.len() / 4;
            let base: usize = 4 * x;
            write_rect(&mut svg, x as u64, y as u64, row[base], row[base + 1], row[base + 2]);
            proof {
                assert(elems.take(x + 1) =~= elems.take(x as int).push(elems[x as int]));
                elems.take(x as int).lemma_flatten_push(elems[x as int]);
            }
            x = x + 1;
        }
        proof {
            assert(elems.take(count as int) =~= elems);
            let done = rows.take(y as int);
            assert(rows.take(y + 1).drop_last() =~= done);
            lemma_flatten_concat(image_rects(done), elems);
        }
        y = y + 1;
    }
    assert(rows.take(y as int) =~= rows);
    svg.append("</svg>");
    assert(svg@ =~= svg_spec(rows, width as nat, height as nat));
    svg
}

/// For width `w` and height `h`, the document over `h` rows of `w` pixels is
/// one opening tag, exactly `w * h` rectangle elements and one closing tag;
/// rectangle `k` is pixel `k % w` of row `k / w`.
pub proof fn lemma_rect_count(rows: Seq<Seq<u8>>, w: nat, h: nat)
    requires
        w > 0,
        rows.len() == h,
        forall|i: int| 0 <= i < h ==> (#[trigger] rows[i]).len() == w * 4,
    ensures
        svg_spec(rows, w, h) == open_tag(w, h) + image_rects(rows).flatten() + close_tag(),
        image_rects(rows).len() == w * h,
        forall|k: int|
            0 <= k < w * h ==> #[trigger] image_rects(rows)[k] == pixel_rect(
                rows[k / w as int],
                (k % w as int) as nat,
                (k / w as int) as nat,
            ),
    decreases h,
{
    if h > 0 {
        let prev = rows.drop_last();
        let hp = (h - 1) as nat;
        lemma_rect_count(prev, w, hp);
        let last = row_rects(rows.last(), hp);
        assert(last.len() == w);
        assert(w * h == w * hp + w) by (nonlinear_arith)
            requires hp + 1 == h;
        assert forall|k: int| 0 <= k < w * h implies #[trigger] image_rects(rows)[k] == pixel_rect(
            rows[k / w as int],
            (k % w as int) as nat,
            (k / w as int) as nat,
        ) by {
            if k < w * hp {
                let q = k / (w as int);
                vstd::arithmetic::div_mod::lemma_fundamental_div_mod(k, w as int);
                assert(0 <= q < hp) by (nonlinear_arith)
                    requires k == w * q + k % (w as int), 0 <= k % (w as int) < w, 0 <= k < w * hp;
                assert(image_rects(rows)[k] == image_rects(prev)[k]);
            } else {
                let j = k - w * hp;
                assert(k == hp * w + j) by (nonlinear_arith)
                    requires j == k - w * hp;
                lemma_fundamental_div_mod_converse(k, w as int, hp as int, j);
                assert(image_rects(rows)[k] == last[j]);
            }
        }
    }
}

/// Converting the same pixel buffer with the same dimensions again gives the
/// same document, character for character.
pub proof fn lemma_same_input_same_document(p: Seq<u8>, q: Seq<u8>, w: nat, h: nat)
    requires
        p == q,
    ensures
        svg_spec(rows_spec(p, w, h), w, h) == svg_spec(rows_spec(q, w, h), w, h),
{
}

/// The number of positions at which `pat` occurs in `s`, overlaps included.
pub open spec fn occurrences(s: Seq<char>, pat: Seq<char>) -> nat
    decreases s.len(),
{
    if pat.len() == 0 || s.len() < pat.len() {
        0
    } else {
        (if s.subrange(0, pat.len() as int) == pat { 1nat } else { 0nat }) + occurrences(
            s.drop_first(),
            pat,
        )
    }
}

/// Whether `s` holds no `<`.
pub open spec fn no_lt(s: Seq<char>) -> bool {
    forall|i: int| 0 <= i < s.len() ==> s[i] != '<'
}

/// Whether `s` is one markup item: a `<` and then no other `<`.
pub open spec fn one_tag(s: Seq<char>) -> bool {
    s.len() > 0 && s[0] == '<' && no_lt(s.drop_first())
}

/// Whether `s` begins with `p`.
pub open spec fn starts_with(s: Seq<char>, p: Seq<char>) -> bool {
    s.len() >= p.len() && s.subrange(0, p.len() as int) == p
}

proof fn lemma_tag_append(a: Seq<char>, b: Seq<char>)
    requires
        one_tag(a),
        no_lt(b),
    ensures
        one_tag(a + b),
{
    assert((a + b).drop_first() =~= a.drop_first() + b);
}

proof fn lemma_decimal_no_lt(n: nat)
    ensures
        no_lt(decimal(n)),
    decreases n,
{
    if n >= 10 {
        lemma_decimal_no_lt(n / 10);
    }
}

proof fn lemma_fill_no_lt(red: u8, green: u8, blue: u8)
    ensures
        no_lt(fill_spec(red, green, blue)),
{
}

proof fn lemma_rect_is_tag(x: nat, y: nat, red: u8, green: u8, blue: u8)
    ensures
        one_tag(rect_spec(x, y, red, green, blue)),
        starts_with(rect_spec(x, y, red, green, blue), "<rect"@),
        !starts_with(rect_spec(x, y, red, green, blue), "<svg"@),
        !starts_with(rect_spec(x, y, red, green, blue), "</svg>"@),
{
    reveal_strlit("<rect x=\"");
    reveal_strlit("\" y=\"");
    reveal_strlit("\" width=\"1\" height=\"1\" fill=\"");
    reveal_strlit("\" />");
    reveal_strlit("<rect");
    reveal_strlit("<svg");
    reveal_strlit("</svg>");
    lemma_decimal_no_lt(x);
    lemma_decimal_no_lt(y);
    lemma_fill_no_lt(red, green, blue);
    let l0 = "<rect x=\""@;
    let t1 = l0 + decimal(x);
    lemma_tag_append(l0, decimal(x));
    let t2 = t1 + "\" y=\""@;
    lemma_tag_append(t1, "\" y=\""@);
    let t3 = t2 + decimal(y);
    lemma_tag_append(t2, decimal(y));
    let t4 = t3 + "\" width=\"1\" height=\"1\" fill=\""@;
    lemma_tag_append(t3, "\" width=\"1\" height=\"1\" fill=\""@);
    let t5 = t4 + fill_spec(red, green, blue);
    lemma_tag_append(t4, fill_spec(red, green, blue));
    lemma_tag_append(t5, "\" />"@);
    let r = rect_spec(x, y, red, green, blue);
    assert(r.subrange(0, 5) =~= "<rect"@);
    assert(r[1] == 'r');
    if r.len() >= 4 {
        assert(r.subrange(0, 4)[1] == r[1]);
    }
    if r.len() >= 6 {
        assert(r.subrange(0, 6)[1] == r[1]);
    }
}

proof fn lemma_open_is_tag(w: nat, h: nat)
    ensures
        one_tag(open_tag(w, h)),
        starts_with(open_tag(w, h), "<svg"@),
        !starts_with(open_tag(w, h), "<rect"@),
        !starts_with(open_tag(w, h), "</svg>"@),
{
    reveal_strlit("<svg width=\"");
    reveal_strlit("\" height=\"");
    reveal_strlit("\" xmlns=\"http://www.w3.org/2000/svg\">");
    reveal_strlit("<rect");
    reveal_strlit("<svg");
    reveal_strlit("</svg>");
    lemma_decimal_no_lt(w);
    lemma_decimal_no_lt(h);
    let l0 = "<svg width=\""@;
    let t1 = l0 + decimal(w);
    lemma_tag_append(l0, decimal(w));
    let t2 = t1 + "\" height=\""@;
    lemma_tag_append(t1, "\" height=\""@);
    let t3 = t2 + decimal(h);
    lemma_tag_append(t2, decimal(h));
    lemma_tag_append(t3, "\" xmlns=\"http://www.w3.org/2000/svg\">"@);
    let o = open_tag(w, h);
    assert(o.subrange(0, 4) =~= "<svg"@);
    assert(o[1] == 's');
    if o.len() >= 5 {
        assert(o.subrange(0, 5)[1] == o[1]);
    }
    if o.len() >= 6 {
        assert(o.subrange(0, 6)[1] == o[1]);
    }
}

proof fn lemma_close_is_tag()
    ensures
        one_tag(close_tag()),
        starts_with(close_tag(), "</svg>"@),
        !starts_with(close_tag(), "<rect"@),
        !starts_with(close_tag(), "<svg"@),
{
    reveal_strlit("</svg>");
    reveal_strlit("<rect");
    reveal_strlit("<svg");
    assert(close_tag().subrange(0, 6) =~= "</svg>"@);
    assert(close_tag()[1] == '/');
}

proof fn lemma_occ_no_lt(s: Seq<char>, pat: Seq<char>)
    requires
        one_tag(pat),
        no_lt(s),
    ensures
        occurrences(s, pat) == 0,
    decreases s.len(),
{
    if s.len() >= pat.len() {
        assert(s.subrange(0, pat.len() as int)[0] != pat[0]);
        lemma_occ_no_lt(s.drop_first(), pat);
    }
}

proof fn lemma_occ_tag(t: Seq<char>, pat: Seq<char>)
    requires
        one_tag(pat),
        one_tag(t),
    ensures
        occurrences(t, pat) == if starts_with(t, pat) { 1nat } else { 0nat },
{
    if t.len() >= pat.len() {
        lemma_occ_no_lt(t.drop_first(), pat);
    }
}

proof fn lemma_occ_concat(a: Seq<char>, b: Seq<char>, pat: Seq<char>)
    requires
        one_tag(pat),
        b.len() == 0 || b[0] == '<',
    ensures
        occurrences(a + b, pat) == occurrences(a, pat) + occurrences(b, pat),
    decreases a.len(),
{
    if a.len() == 0 {
        assert(a + b =~= b);
    } else if b.len() == 0 {
        assert(a + b =~= a);
    } else {
        let p = pat.len() as int;
        assert((a + b).drop_first() =~= a.drop_first() + b);
        lemma_occ_concat(a.drop_first(), b, pat);
        if a.len() >= p {
            assert((a + b).subrange(0, p) =~= a.subrange(0, p));
        } else if (a + b).len() >= p {
            let k = a.len() as int;
            assert((a + b).subrange(0, p)[k] == '<');
            assert(pat.drop_first()[k - 1] == pat[k]);
        }
    }
}

proof fn lemma_occ_flatten(es: Seq<Seq<char>>, pat: Seq<char>, starts: bool)
    requires
        one_tag(pat),
        forall|k: int| 0 <= k < es.len() ==> one_tag(#[trigger] es[k]),
        forall|k: int| 0 <= k < es.len() ==> starts_with(#[trigger] es[k], pat) == starts,
    ensures
        occurrences(es.flatten(), pat) == if starts { es.len() } else { 0 },
        es.flatten().len() == 0 || es.flatten()[0] == '<',
    decreases es.len(),
{
    if es.len() > 0 {
        let rest = es.drop_first();
        assert forall|k: int| 0 <= k < rest.len() implies one_tag(#[trigger] rest[k])
            && starts_with(rest[k], pat) == starts by {
            assert(rest[k] == es[k + 1]);
        }
        lemma_occ_flatten(rest, pat, starts);
        assert(es[0] == es.first());
        lemma_occ_concat(es.first(), rest.flatten(), pat);
        lemma_occ_tag(es.first(), pat);
    }
}

proof fn lemma_doc_count(rows: Seq<Seq<u8>>, w: nat, h: nat, pat: Seq<char>, in_open: bool, in_rects: bool, in_close: bool)
    requires
        one_tag(pat),
        w > 0,
        rows.len() == h,
        forall|i: int| 0 <= i < h ==> (#[trigger] rows[i]).len() == w * 4,
        starts_with(open_tag(w, h), pat) == in_open,
        starts_with(close_tag(), pat) == in_close,
        forall|x: nat, y: nat, red: u8, green: u8, blue: u8|
            starts_with(#[trigger] rect_spec(x, y, red, green, blue), pat) == in_rects,
    ensures
        occurrences(svg_spec(rows, w, h), pat) == (if in_open { 1nat } else { 0nat }) + (if in_rects { w * h } else { 0 })
            + (if in_close { 1nat } else { 0nat }),
{
    lemma_rect_count(rows, w, h);
    let es = image_rects(rows);
    assert forall|k: int| 0 <= k < es.len() implies one_tag(#[trigger] es[k]) && starts_with(es[k], pat) == in_rects by {
        let y = k / w as int;
        let x = k % w as int;
        let row = rows[y];
        lemma_rect_is_tag(x as nat, y as nat, row[4 * x], row[4 * x + 1], row[4 * x + 2]);
    }
    lemma_occ_flatten(es, pat, in_rects);
    lemma_open_is_tag(w, h);
    lemma_close_is_tag();
    let o = open_tag(w, h);
    let f = es.flatten();
    let c = close_tag();
    lemma_occ_concat(o + f, c, pat);
    lemma_occ_concat(o, f, pat);
    lemma_occ_tag(o, pat);
    lemma_occ_tag(c, pat);
}

/// The document over `h` rows of `w` pixels holds the text `<svg` once, the
/// text `</svg>` once and the text `<rect` exactly `w * h` times.
pub proof fn lemma_tag_counts(rows: Seq<Seq<u8>>, w: nat, h: nat)
    requires
        w > 0,
        rows.len() == h,
        forall|i: int| 0 <= i < h ==> (#[trigger] rows[i]).len() == w * 4,
    ensures
        occurrences(svg_spec(rows, w, h), "<svg"@) == 1,
        occurrences(svg_spec(rows, w, h), "</svg>"@) == 1,
        occurrences(svg_spec(rows, w, h), "<rect"@) == w * h,
{
    reveal_strlit("<svg");
    reveal_strlit("</svg>");
    reveal_strlit("<rect");
    assert(one_tag("<svg"@));
    assert(one_tag("</svg>"@));
    assert(one_tag("<rect"@));
    lemma_open_is_tag(w, h);
    lemma_close_is_tag();
    assert forall|x: nat, y: nat, red: u8, green: u8, blue: u8|
        !starts_with(#[trigger] rect_spec(x, y, red, green, blue), "<svg"@)
        && !starts_with(rect_spec(x, y, red, green, blue), "</svg>"@)
        && starts_with(rect_spec(x, y, red, green, blue), "<rect"@) by {
        lemma_rect_is_tag(x, y, red, green, blue);
    }
    lemma_doc_count(rows, w, h, "<svg"@, true, false, false);
    lemma_doc_count(rows, w, h, "</svg>"@, false, false, true);
    lemma_doc_count(rows, w, h, "<rect"@, false, true, false);
}

} // verus!
