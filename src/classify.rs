//! Grapheme splitting, the emoji test on a cluster, and the codepoint key that
//! names a cluster's image.

use vstd::prelude::*;
use unicode_segmentation::UnicodeSegmentation;
use crate::text::{chars_of, push_str, string_of};

verus! {

/// The extended grapheme clusters of a text, as `unicode-segmentation` splits it.
pub uninterp spec fn graphemes_of(s: Seq<char>) -> Seq<Seq<char>>;

/// Whether a cluster, as a whole, is an entry of the `emojis` crate's table.
pub uninterp spec fn is_emoji(g: Seq<char>) -> bool;

/// Relies on `UnicodeSegmentation::graphemes(s, true)`: the extended grapheme
/// clusters of `s`, in order; they are non-empty consecutive slices of `s`
/// (`Graphemes::next` returns `&s[start..next]` from one boundary to the
/// next), so together they make up `s`.
#[verifier::external_body]
pub(crate) fn split_graphemes(s: &str) -> (r: Vec<String>)
    ensures
        r@.len() == graphemes_of(s@).len(),
        forall|i: int| 0 <= i < r@.len() ==> #[trigger] r@[i]@ == graphemes_of(s@)[i],
        crate::text::views(r@).flatten() == s@,
        forall|i: int| 0 <= i < r@.len() ==> #[trigger] r@[i]@.len() > 0,
{
    s.graphemes(true).map(|g| g.to_string()).collect()
}

/// Relies on `emojis::get`: whether the exact string is an emoji of the table.
#[verifier::external_body]
pub(crate) fn is_emoji_grapheme(g: &str) -> (r: bool)
    ensures
        r == is_emoji(g@),
{
    emojis::get(g).is_some()
}

/// Base of the remote image source; an image is `<base><key>.png`.
pub const DEFAULT_CDN_BASE: &'static str = "https://gcore.jsdelivr.net/gh/twitter/twemoji@14.0.2/assets/72x72/";

/// File extension of an emoji image.
pub const PNG_SUFFIX: &'static str = ".png";

/// The lowercase hexadecimal digit of `d` (`d < 16`).
pub open spec fn hex_digit(d: nat) -> char {
    if d == 0 { '0' } else if d == 1 { '1' } else if d == 2 { '2' } else if d == 3 { '3' }
    else if d == 4 { '4' } else if d == 5 { '5' } else if d == 6 { '6' } else if d == 7 { '7' }
    else if d == 8 { '8' } else if d == 9 { '9' } else if d == 10 { 'a' } else if d == 11 { 'b' }
    else if d == 12 { 'c' } else if d == 13 { 'd' } else if d == 14 { 'e' } else { 'f' }
}

/// `n` in lowercase hexadecimal, without leading zeros.
pub open spec fn hex_of(n: nat) -> Seq<char>
    decreases n,
{
    if n < 16 {
        seq![hex_digit(n)]
    } else {
        hex_of(n / 16).push(hex_digit(n % 16))
    }
}

/// The codepoint key of a cluster: the hexadecimal value of each of its
/// characters, joined by `-`.
pub open spec fn key_of(g: Seq<char>) -> Seq<char>
    decreases g.len(),
{
    if g.len() == 0 {
        seq![]
    } else if g.len() == 1 {
        hex_of(g[0] as u32 as nat)
    } else {
        key_of(g.drop_last()) + seq!['-'] + hex_of(g.last() as u32 as nat)
    }
}

/// The image file name of a key.
pub open spec fn file_name_of(key: Seq<char>) -> Seq<char> {
    key + PNG_SUFFIX@
}

/// The remote address of the image of a key.
pub open spec fn url_of(key: Seq<char>) -> Seq<char> {
    DEFAULT_CDN_BASE@ + key + PNG_SUFFIX@
}

fn hex_digit_char(d: u32) -> (c: char)
    requires
        d < 16,
    ensures
        c == hex_digit(d as nat),
{
    match d {
        0 => '0',
        1 => '1',
        2 => '2',
        3 => '3',
        4 => '4',
        5 => '5',
        6 => '6',
        7 => '7',
        8 => '8',
        9 => '9',
        10 => 'a',
        11 => 'b',
        12 => 'c',
        13 => 'd',
        14 => 'e',
        _ => 'f',
    }
}

/// Appends `n` in lowercase hexadecimal to `out`.
fn push_hex(out: &mut Vec<char>, n: u32)
    ensures
        final(out)@ == old(out)@ + hex_of(n as nat),
    decreases n,
{
    if n >= 16 {
        push_hex(out, n / 16);
    }
    out.push(hex_digit_char(n % 16));
    proof {
        if n >= 16 {
            assert(hex_of(n as nat) == hex_of((n / 16) as nat).push(hex_digit((n % 16) as nat)));
        }
    }
    assert(final(out)@ =~= old(out)@ + hex_of(n as nat));
}

/// Appends the codepoint key of `g` to `out`.
fn push_key(out: &mut Vec<char>, g: &str)
    ensures
        final(out)@ == old(out)@ + key_of(g@),
{
    let cs = chars_of(g);
    let ghost start = out@;
    let mut i: usize = 0;
    while i < cs.len()
        invariant
            i <= cs.len(),
            cs@ == g@,
            out@ == start + key_of(cs@.subrange(0, i as int)),
        decreases cs.len() - i,
    {
        if i > 0 {
            out.push('-');
        }
        push_hex(out, cs[i] as u32);
        proof {
            let pre = cs@.subrange(0, i as int);
            let post = cs@.subrange(0, i + 1);
            assert(post.drop_last() =~= pre);
            assert(post.last() == cs@[i as int]);
            if i == 0 {
                assert(pre.len() == 0);
                assert(key_of(pre) =~= seq![]);
                assert(post.len() == 1);
            }
        }
        assert(out@ =~= start + key_of(cs@.subrange(0, i + 1)));
        i = i + 1;
    }
    assert(cs@.subrange(0, cs@.len() as int) =~= cs@);
}

/// The codepoint key of a cluster, e.g. `1f600` or `1f468-200d-1f469`.
pub fn emoji_key(g: &str) -> (r: String)
    ensures
        r@ == key_of(g@),
{
    let mut out: Vec<char> = Vec::new();
    push_key(&mut out, g);
    assert(out@ =~= key_of(g@));
    string_of(&out)
}

/// The remote address of the image of an emoji cluster.
pub fn emoji_to_url(emoji: &str) -> (r: String)
    ensures
        r@ == url_of(key_of(emoji@)),
{
    let mut out: Vec<char> = Vec::new();
    push_str(&mut out, DEFAULT_CDN_BASE);
    push_key(&mut out, emoji);
    push_str(&mut out, PNG_SUFFIX);
    assert(out@ =~= url_of(key_of(emoji@)));
    string_of(&out)
}

/// The remote address of the image of an already computed key.
pub fn emoji_to_url_base(codepoint: &str) -> (r: String)
    ensures
        r@ == url_of(codepoint@),
{
    let mut out: Vec<char> = Vec::new();
    push_str(&mut out, DEFAULT_CDN_BASE);
    push_str(&mut out, codepoint);
    push_str(&mut out, PNG_SUFFIX);
    assert(out@ =~= url_of(codepoint@));
    string_of(&out)
}

/// Whether `s` holds no `-`.
pub open spec fn dash_free(s: Seq<char>) -> bool {
    forall|i: int| 0 <= i < s.len() ==> s[i] != '-'
}

proof fn lemma_hex_shape(n: nat)
    ensures
        dash_free(hex_of(n)),
        hex_of(n).len() >= 1,
        n >= 16 ==> hex_of(n).len() >= 2,
        n < 16 ==> hex_of(n).len() == 1,
    decreases n,
{
    if n >= 16 {
        lemma_hex_shape(n / 16);
        let prev = hex_of(n / 16);
        assert forall|i: int| 0 <= i < hex_of(n).len() implies hex_of(n)[i] != '-' by {
            if i < prev.len() {
                assert(hex_of(n)[i] == prev[i]);
            }
        }
    }
}

proof fn lemma_hex_injective(a: nat, b: nat)
    requires
        hex_of(a) == hex_of(b),
    ensures
        a == b,
    decreases a + b,
{
    lemma_hex_shape(a);
    lemma_hex_shape(b);
    if a < 16 && b < 16 {
        assert(hex_of(a)[0] == hex_digit(a));
        assert(hex_of(b)[0] == hex_digit(b));
    } else if a >= 16 && b >= 16 {
        let ha = hex_of(a / 16);
        let hb = hex_of(b / 16);
        assert(hex_of(a).drop_last() =~= ha);
        assert(hex_of(b).drop_last() =~= hb);
        assert(hex_of(a).last() == hex_digit(a % 16));
        assert(hex_of(b).last() == hex_digit(b % 16));
        lemma_hex_injective(a / 16, b / 16);
        assert(a % 16 == b % 16);
        assert(a == 16 * (a / 16) + a % 16);
        assert(b == 16 * (b / 16) + b % 16);
    }
}

proof fn lemma_split_last_dash(x1: Seq<char>, h1: Seq<char>, x2: Seq<char>, h2: Seq<char>)
    requires
        x1 + seq!['-'] + h1 == x2 + seq!['-'] + h2,
        dash_free(h1),
        dash_free(h2),
    ensures
        x1 == x2,
        h1 == h2,
{
    let t = x1 + seq!['-'] + h1;
    let u = x2 + seq!['-'] + h2;
    if h1.len() < h2.len() {
        let i = t.len() - h1.len() - 1;
        assert(t[i] == '-');
        assert(u[i] == h2[h2.len() - h1.len() - 1]);
    } else if h2.len() < h1.len() {
        let i = u.len() - h2.len() - 1;
        assert(u[i] == '-');
        assert(t[i] == h1[h1.len() - h2.len() - 1]);
    } else {
        assert(t.len() == x1.len() + 1 + h1.len());
        assert(u.len() == x2.len() + 1 + h2.len());
        assert(x1.len() == x2.len());
        assert forall|i: int| 0 <= i < x1.len() implies x1[i] == x2[i] by {
            assert(t[i] == x1[i]);
            assert(u[i] == x2[i]);
        }
        assert forall|i: int| 0 <= i < h1.len() implies h1[i] == h2[i] by {
            assert(t[x1.len() + 1 + i] == h1[i]);
            assert(u[x2.len() + 1 + i] == h2[i]);
        }
        assert(x1 =~= x2);
        assert(h1 =~= h2);
    }
}

proof fn lemma_key_shape(g: Seq<char>)
    ensures
        g.len() == 0 ==> key_of(g).len() == 0,
        g.len() >= 1 ==> key_of(g).len() >= 1,
        g.len() == 1 ==> dash_free(key_of(g)),
        g.len() >= 2 ==> !dash_free(key_of(g)),
    decreases g.len(),
{
    if g.len() == 1 {
        lemma_hex_shape(g[0] as u32 as nat);
    } else if g.len() >= 2 {
        let x = key_of(g.drop_last());
        assert(key_of(g)[x.len() as int] == '-');
    }
}

proof fn lemma_key_injective(a: Seq<char>, b: Seq<char>)
    ensures
        key_of(a) == key_of(b) <==> a == b,
    decreases a.len(),
{
    if key_of(a) == key_of(b) {
        lemma_key_shape(a);
        lemma_key_shape(b);
        if a.len() == 1 && b.len() == 1 {
            lemma_hex_injective(a[0] as u32 as nat, b[0] as u32 as nat);
            vstd::utf8::char_u32_cast(a[0], a[0] as u32);
            vstd::utf8::char_u32_cast(b[0], b[0] as u32);
            assert(a =~= b);
        } else if a.len() >= 2 && b.len() >= 2 {
            lemma_hex_shape(a.last() as u32 as nat);
            lemma_hex_shape(b.last() as u32 as nat);
            lemma_split_last_dash(
                key_of(a.drop_last()),
                hex_of(a.last() as u32 as nat),
                key_of(b.drop_last()),
                hex_of(b.last() as u32 as nat),
            );
            lemma_key_injective(a.drop_last(), b.drop_last());
            lemma_hex_injective(a.last() as u32 as nat, b.last() as u32 as nat);
            vstd::utf8::char_u32_cast(a.last(), a.last() as u32);
            vstd::utf8::char_u32_cast(b.last(), b.last() as u32);
            assert(a =~= a.drop_last().push(a.last()));
            assert(b =~= b.drop_last().push(b.last()));
        } else if a.len() == 0 && b.len() == 0 {
            assert(a =~= b);
        }
    }
}

/// The key of a cluster is a function of the cluster, and a canonical one:
/// two clusters have the same key, hence the same image file name, exactly
/// when they are the same cluster.
pub proof fn lemma_key_identifies(a: Seq<char>, b: Seq<char>)
    ensures
        key_of(a) == key_of(b) <==> a == b,
        file_name_of(key_of(a)) == file_name_of(key_of(b)) <==> a == b,
{
    lemma_key_injective(a, b);
    if file_name_of(key_of(a)) == file_name_of(key_of(b)) {
        let fa = file_name_of(key_of(a));
        let fb = file_name_of(key_of(b));
        assert(fa.len() == key_of(a).len() + PNG_SUFFIX@.len());
        assert(fb.len() == key_of(b).len() + PNG_SUFFIX@.len());
        assert(key_of(a).len() == key_of(b).len());
        assert(fa.subrange(0, key_of(a).len() as int) =~= key_of(a));
        assert(fb.subrange(0, key_of(b).len() as int) =~= key_of(b));
    }
}

} // verus!
