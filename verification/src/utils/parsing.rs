use vstd::prelude::*;

verus! {

/// The lowercase form of a text, as `str::to_lowercase` gives it.
pub uninterp spec fn lowercase_of(s: Seq<char>) -> Seq<char>;

/// Every character is ASCII and none is an uppercase letter.
pub open spec fn is_lowercase_ascii(s: Seq<char>) -> bool {
    forall|i: int| 0 <= i < s.len() ==> (#[trigger] s[i] as u32) < 128 && !(65 <= (s[i] as u32) <= 90)
}

/// `str::to_lowercase` of std: each character replaced by its Unicode
/// lowercase mapping. The contract names the result, and says the one
/// short fact the mapping plainly gives: ASCII characters other than the
/// uppercase letters have no other lowercase form, so such a text comes
/// back unchanged.
#[verifier::external_body]
fn to_lowercase(s: &str) -> (r: String)
    ensures
        r@ == lowercase_of(s@),
        is_lowercase_ascii(s@) ==> r@ == s@,
{
    s.to_lowercase()
}

/// The text in lowercase.
pub fn lowercase(s: &str) -> (r: String)
    ensures
        r@ == lowercase_of(s@),
        is_lowercase_ascii(s@) ==> r@ == s@,
{
    to_lowercase(s)
}

/// The text `parts` joined with `sep` between each two.
pub open spec fn joined(parts: Seq<Seq<char>>, sep: Seq<char>) -> Seq<char>
    decreases parts.len(),
{
    if parts.len() == 0 {
        seq![]
    } else if parts.len() == 1 {
        parts[0]
    } else {
        joined(parts.drop_last(), sep) + sep + parts.last()
    }
}

/// The texts of `parts`.
pub open spec fn texts(parts: Seq<String>) -> Seq<Seq<char>> {
    parts.map_values(|p: String| p@)
}

/// `parts` joined with `sep` between each two, as `[String]::join` does.
pub fn join(parts: &Vec<String>, sep: &str) -> (r: String)
    ensures
        r@ == joined(texts(parts@), sep@),
{
    let mut res = String::new();
    let n = parts.len();
    let mut i: usize = 0;
    while i < n
        invariant
            n == parts@.len(),
            i <= n,
            res@ == joined(texts(parts@).take(i as int), sep@),
        decreases n - i,
    {
        assert(texts(parts@).take(i + 1).drop_last() =~= texts(parts@).take(i as int));
        if i != 0 {
            res.append(sep);
        }
        res.append(parts[i].as_str());
        proof {
            if i == 0 {
                assert(res@ =~= texts(parts@).take(1)[0]);
            }
        }
        i = i + 1;
    }
    assert(texts(parts@).take(n as int) =~= texts(parts@));
    res
}

/// The byte is an ASCII decimal digit.
pub open spec fn is_digit(b: u8) -> bool {
    48 <= b <= 57
}

/// Every byte is an ASCII decimal digit.
pub open spec fn all_digits(d: Seq<u8>) -> bool {
    forall|i: int| 0 <= i < d.len() ==> is_digit(#[trigger] d[i])
}

/// The number that the decimal digits `d` spell.
pub open spec fn decimal_value(d: Seq<u8>) -> int
    decreases d.len(),
{
    if d.len() == 0 {
        0
    } else {
        decimal_value(d.drop_last()) * 10 + (d.last() - 48)
    }
}

/// What `u32::from_str` of std gives for the text with bytes `b`: an
/// optional `+` followed by at least one decimal digit, with a value that
/// fits in 32 bits.
pub open spec fn u32_text_value(b: Seq<u8>) -> Option<u32> {
    let d = if b.len() > 0 && b[0] == 43 {
        b.drop_first()
    } else {
        b
    };
    if d.len() > 0 && all_digits(d) && decimal_value(d) <= u32::MAX {
        Some(decimal_value(d) as u32)
    } else {
        None
    }
}

/// The position of the first `x` in `b`.
#[verifier::opaque]
pub open spec fn first_index_of(b: Seq<u8>, x: u8) -> Option<int> {
    if exists|i: int| 0 <= i < b.len() && b[i] == x {
        Some(
            choose|i: int|
                0 <= i < b.len() && b[i] == x && forall|j: int| 0 <= j < i ==> b[j] != x,
        )
    } else {
        None
    }
}

proof fn lemma_decimal_value_nonneg(d: Seq<u8>)
    requires
        all_digits(d),
    ensures
        decimal_value(d) >= 0,
    decreases d.len(),
{
    if d.len() > 0 {
        assert(all_digits(d.drop_last()));
        lemma_decimal_value_nonneg(d.drop_last());
        assert(is_digit(d[d.len() - 1]));
    }
}

/// The `u32` that bytes `from..to` of `bytes` spell, read as
/// `u32::from_str` reads a text.
pub fn parse_u32(bytes: &[u8], from: usize, to: usize) -> (r: Option<u32>)
    requires
        from <= to <= bytes@.len(),
    ensures
        r == u32_text_value(bytes@.subrange(from as int, to as int)),
{
    let ghost b = bytes@.subrange(from as int, to as int);
    let mut start = from;
    if from < to && bytes[from] == 43 {
        start = from + 1;
    }
    let ghost d = bytes@.subrange(start as int, to as int);
    assert(d =~= (if b.len() > 0 && b[0] == 43 {
        b.drop_first()
    } else {
        b
    }));
    if start == to {
        return None;
    }
    // saturates one past u32::MAX
    let mut acc: u64 = 0;
    let mut i = start;
    while i < to
        invariant
            from <= start <= i <= to <= bytes@.len(),
            d == bytes@.subrange(start as int, to as int),
            b == bytes@.subrange(from as int, to as int),
            d == (if b.len() > 0 && b[0] == 43 {
                b.drop_first()
            } else {
                b
            }),
            all_digits(bytes@.subrange(start as int, i as int)),
            acc == if decimal_value(bytes@.subrange(start as int, i as int)) <= u32::MAX {
                decimal_value(bytes@.subrange(start as int, i as int))
            } else {
                u32::MAX + 1
            },
        decreases to - i,
    {
        let c = bytes[i];
        let ghost pre = bytes@.subrange(start as int, i as int);
        let ghost next = bytes@.subrange(start as int, i + 1);
        assert(next.drop_last() =~= pre);
        if !(48 <= c && c <= 57) {
            assert(d[i - start] == c);
            assert(!is_digit(d[i - start]));
            return None;
        }
        proof {
            lemma_decimal_value_nonneg(pre);
        }
        if acc <= 4294967295 {
            acc = acc * 10 + (c - 48) as u64;
            if acc > 4294967295 {
                acc = 4294967296;
            }
        }
        i = i + 1;
    }
    assert(bytes@.subrange(start as int, i as int) =~= d);
    if acc <= 4294967295 {
        Some(acc as u32)
    } else {
        None
    }
}

/// The position of the first byte `x` in `bytes`.
pub fn first_index(bytes: &[u8], x: u8) -> (r: Option<usize>)
    ensures
        match r {
            Some(i) => i < bytes@.len() && bytes@[i as int] == x && first_index_of(bytes@, x)
                == Some(i as int),
            None => first_index_of(bytes@, x) is None,
        },
{
    reveal(first_index_of);
    let n = bytes.len();
    let mut i: usize = 0;
    while i < n
        invariant
            n == bytes@.len(),
            i <= n,
            forall|j: int| 0 <= j < i ==> bytes@[j] != x,
        decreases n - i,
    {
        if bytes[i] == x {
            reveal(first_index_of);
            let ghost k = choose|k: int|
                0 <= k < bytes@.len() && bytes@[k] == x && forall|j: int|
                    0 <= j < k ==> bytes@[j] != x;
            assert(k == i) by {
                if k < i {
                    assert(bytes@[k] != x);
                } else if k > i {
                    assert(bytes@[i as int] != x);
                }
            }
            return Some(i);
        }
        i = i + 1;
    }
    reveal(first_index_of);
    None
}

} // verus!
