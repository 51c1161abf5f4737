use vstd::prelude::*;

verus! {

/// Index of the first occurrence of `c` in `s`, or -1 when `c` does not occur.
pub open spec fn find_char(s: Seq<char>, c: char) -> int
    decreases s.len(),
{
    if s.len() == 0 {
        -1
    } else if s[0] == c {
        0
    } else {
        let r = find_char(s.skip(1), c);
        if r < 0 {
            -1
        } else {
            r + 1
        }
    }
}

/// `find_char` points at the first occurrence, and is -1 exactly when there
/// is none.
pub proof fn lemma_find_char(s: Seq<char>, c: char)
    ensures
        find_char(s, c) == -1 || (0 <= find_char(s, c) < s.len()),
        find_char(s, c) == -1 ==> forall|i: int| 0 <= i < s.len() ==> s[i] != c,
        find_char(s, c) >= 0 ==> s[find_char(s, c)] == c,
        find_char(s, c) >= 0 ==> forall|i: int| 0 <= i < find_char(s, c) ==> s[i] != c,
    decreases s.len(),
{
    if s.len() == 0 {
    } else if s[0] == c {
    } else {
        lemma_find_char(s.skip(1), c);
        assert forall|i: int| 1 <= i < s.len() implies s.skip(1)[i - 1] == s[i] by {}
    }
}

/// If position `i` holds `c` and no earlier position does, `find_char` is `i`.
pub proof fn lemma_find_char_found(s: Seq<char>, c: char, i: int)
    requires
        0 <= i < s.len(),
        s[i] == c,
        forall|j: int| 0 <= j < i ==> s[j] != c,
    ensures
        find_char(s, c) == i,
    decreases s.len(),
{
    if i == 0 {
    } else {
        assert forall|j: int| 0 <= j < i - 1 implies s.skip(1)[j] != c by {
            assert(s.skip(1)[j] == s[j + 1]);
        }
        assert(s.skip(1)[i - 1] == s[i]);
        lemma_find_char_found(s.skip(1), c, i - 1);
    }
}

/// The pieces of `s` between occurrences of `c`; always at least one piece.
pub open spec fn split_char(s: Seq<char>, c: char) -> Seq<Seq<char>>
    decreases s.len(),
    via split_char_decreases
{
    let f = find_char(s, c);
    if f < 0 {
        seq![s]
    } else {
        seq![s.take(f)] + split_char(s.skip(f + 1), c)
    }
}

#[via_fn]
proof fn split_char_decreases(s: Seq<char>, c: char) {
    lemma_find_char(s, c);
}

/// Concatenation of `ps` with `c` between neighbouring pieces.
pub open spec fn join_char(ps: Seq<Seq<char>>, c: char) -> Seq<char>
    decreases ps.len(),
{
    if ps.len() == 0 {
        Seq::empty()
    } else if ps.len() == 1 {
        ps[0]
    } else {
        ps[0] + seq![c] + join_char(ps.skip(1), c)
    }
}

/// The texts denoted by a run-time list of strings.
pub open spec fn texts_model(v: Seq<String>) -> Seq<Seq<char>> {
    Seq::new(v.len(), |i: int| v[i]@)
}

/// Position of the first occurrence of `c` in `s`, if any.
pub fn find_char_in(s: &str, c: char) -> (r: Option<usize>)
    ensures
        match r {
            Some(i) => find_char(s@, c) == i,
            None => find_char(s@, c) == -1,
        },
{
    let n = s.unicode_len();
    let mut i: usize = 0;
    while i < n
        invariant
            n == s@.len(),
            i <= n,
            forall|j: int| 0 <= j < i ==> s@[j] != c,
        decreases n - i,
    {
        if s.get_char(i) == c {
            proof {
                lemma_find_char_found(s@, c, i as int);
            }
            return Some(i);
        }
        i = i + 1;
    }
    proof {
        lemma_find_char(s@, c);
    }
    None
}

/// Split `s` at every occurrence of `c`.
pub fn split_by(s: &str, c: char) -> (r: Vec<String>)
    ensures
        texts_model(r@) == split_char(s@, c),
        r@.len() > 0,
    decreases s@.len(),
{
    proof {
        lemma_find_char(s@, c);
    }
    match find_char_in(s, c) {
        None => {
            let mut out: Vec<String> = Vec::new();
            out.push(s.to_owned());
            proof {
                assert(texts_model(out@) =~= split_char(s@, c));
            }
            out
        },
        Some(f) => {
            let n = s.unicode_len();
            let head = s.substring_char(0, f).to_owned();
            let rest = s.substring_char(f + 1, n);
            proof {
                assert(rest@ =~= s@.skip(f + 1));
                assert(head@ =~= s@.take(f as int));
            }
            let mut out = split_by(rest, c);
            out.insert(0, head);
            proof {
                assert(texts_model(out@) =~= split_char(s@, c));
            }
            out
        },
    }
}

/// Join `segs` with a dot between neighbouring pieces.
pub fn join_dots(segs: &Vec<String>) -> (r: String)
    ensures
        r@ == join_char(texts_model(segs@), '.'),
    decreases segs@.len(),
{
    proof {
        reveal_strlit(".");
    }
    if segs.len() == 0 {
        let r = String::new();
        proof {
            assert(r@ =~= join_char(texts_model(segs@), '.'));
        }
        r
    } else if segs.len() == 1 {
        let r = crate::value::clone_string(&segs[0]);
        proof {
            assert(r@ =~= join_char(texts_model(segs@), '.'));
        }
        r
    } else {
        let mut rest: Vec<String> = Vec::new();
        let mut i: usize = 1;
        while i < segs.len()
            invariant
                1 <= i <= segs@.len(),
                rest@.len() == i - 1,
                forall|j: int| 0 <= j < i - 1 ==> rest@[j]@ == #[trigger] segs@[j + 1]@,
            decreases segs@.len() - i,
        {
            rest.push(crate::value::clone_string(&segs[i]));
            i = i + 1;
        }
        let joined = join_dots(&rest);
        let mut r = crate::value::clone_string(&segs[0]);
        r.append(".");
        r.append(joined.as_str());
        proof {
            assert(texts_model(rest@) =~= texts_model(segs@).skip(1));
            assert(("."@)[0] == '.');
            assert(r@ =~= join_char(texts_model(segs@), '.'));
        }
        r
    }
}

pub open spec fn is_digit(c: char) -> bool {
    48 <= c as int <= 57
}

pub open spec fn all_digits(s: Seq<char>) -> bool {
    forall|i: int| 0 <= i < s.len() ==> is_digit(#[trigger] s[i])
}

/// Numeric value of a digit string, most significant digit first.
pub open spec fn digits_val(s: Seq<char>) -> int
    decreases s.len(),
{
    if s.len() == 0 {
        0
    } else {
        digits_val(s.drop_last()) * 10 + (s.last() as int - 48)
    }
}

/// `s` is an optionally negated, non-empty digit string.
pub open spec fn is_int_text(s: Seq<char>) -> bool {
    if s.len() > 0 && s[0] == '-' {
        s.len() > 1 && all_digits(s.skip(1))
    } else {
        s.len() > 0 && all_digits(s)
    }
}

/// The integer denoted by `s` (meaningful only when `is_int_text(s)`).
pub open spec fn int_of_text(s: Seq<char>) -> int {
    if s.len() > 0 && s[0] == '-' {
        -digits_val(s.skip(1))
    } else {
        digits_val(s)
    }
}

/// A digit string's value is non-negative and no prefix exceeds the whole.
pub proof fn lemma_digits_val_bounds(s: Seq<char>)
    requires
        all_digits(s),
    ensures
        digits_val(s) >= 0,
        forall|i: int| 0 <= i <= s.len() ==> #[trigger] digits_val(s.take(i)) <= digits_val(s),
    decreases s.len(),
{
    if s.len() == 0 {
        assert forall|i: int| 0 <= i <= s.len() implies #[trigger] digits_val(s.take(i))
            <= digits_val(s) by {
            assert(s.take(i) =~= s);
        }
    } else {
        assert(all_digits(s.drop_last()));
        lemma_digits_val_bounds(s.drop_last());
        assert(is_digit(s.last()));
        assert forall|i: int| 0 <= i <= s.len() implies #[trigger] digits_val(s.take(i))
            <= digits_val(s) by {
            if i == s.len() {
                assert(s.take(i) =~= s);
            } else {
                assert(s.take(i) =~= s.drop_last().take(i));
            }
        }
    }
}

/// Parse a decimal integer with optional leading minus sign; `None` when the
/// text is not such an integer or its value does not fit in `i64`.
pub fn parse_int(s: &str) -> (r: Option<i64>)
    ensures
        r is Some <==> is_int_text(s@) && i64::MIN <= int_of_text(s@) <= i64::MAX,
        r matches Some(v) ==> v as int == int_of_text(s@),
{
    let n = s.unicode_len();
    if n == 0 {
        return None;
    }
    let neg = s.get_char(0) == '-';
    let start: usize = if neg {
        1
    } else {
        0
    };
    if n == start {
        return None;
    }
    let ghost digits = if neg {
        s@.skip(1)
    } else {
        s@
    };
    let limit: u64 = if neg {
        9223372036854775808
    } else {
        9223372036854775807
    };
    let mut mag: u64 = 0;
    let mut i: usize = start;
    while i < n
        invariant
            start <= i <= n,
            n == s@.len(),
            neg ==> start == 1,
            !neg ==> start == 0,
            neg ==> s@[0] == '-',
            !neg ==> s@.len() > 0 && s@[0] != '-',
            start < n,
            digits == if neg {
                s@.skip(1)
            } else {
                s@
            },
            all_digits(digits.take(i - start)),
            mag as int == digits_val(digits.take(i - start)),
        decreases n - i,
    {
        let c = s.get_char(i);
        proof {
            if neg {
                assert(digits[i - start] == s@.skip(1)[i - 1]);
            }
            assert(digits[i - start] == c);
        }
        let u = c as u32;
        proof {
            assert(c as int == u as int);
        }
        if u < 48 || u > 57 {
            proof {
                assert(!is_digit(digits[i - start]));
            }
            return None;
        }
        let d = (u - 48) as u64;
        let ghost pre = digits.take(i - start);
        proof {
            assert(is_digit(c));
            assert(digits.take(i - start + 1).drop_last() =~= pre);
            assert(digits.take(i - start + 1).last() == digits[i - start]);
            assert forall|j: int| 0 <= j < i - start + 1 implies is_digit(
                #[trigger] digits.take(i - start + 1)[j],
            ) by {
                if j < i - start {
                    assert(digits.take(i - start + 1)[j] == pre[j]);
                } else {
                    assert(digits.take(i - start + 1)[j] == c);
                }
            }
            assert(all_digits(digits.take(i - start + 1)));
        }
        if mag > 922337203685477580 || (mag == 922337203685477580 && d > 8) {
            // any further digit pushes the magnitude beyond what i64 can hold
            proof {
                assert(digits_val(digits.take(i - start + 1)) > 9223372036854775808);
                if all_digits(digits) {
                    lemma_digits_val_bounds(digits);
                }
            }
            return None;
        }
        mag = mag * 10 + d;
        i = i + 1;
    }
    proof {
        assert(digits.take(n - start) =~= digits);
    }
    if mag > limit {
        return None;
    }
    if neg {
        if mag == 9223372036854775808 {
            Some(i64::MIN)
        } else {
            Some(-(mag as i64))
        }
    } else {
        Some(mag as i64)
    }
}

/// `a` comes no later than `b` in lexicographic order by character code.
pub open spec fn lex_le(a: Seq<char>, b: Seq<char>) -> bool
    decreases a.len(),
{
    if a.len() == 0 {
        true
    } else if b.len() == 0 {
        false
    } else if a[0] == b[0] {
        lex_le(a.skip(1), b.skip(1))
    } else {
        (a[0] as int) < (b[0] as int)
    }
}

/// Lexicographic order is total.
pub proof fn lemma_lex_total(a: Seq<char>, b: Seq<char>)
    ensures
        lex_le(a, b) || lex_le(b, a),
    decreases a.len(),
{
    if a.len() == 0 || b.len() == 0 {
    } else if a[0] == b[0] {
        lemma_lex_total(a.skip(1), b.skip(1));
    }
}

/// Lexicographic order is transitive.
pub proof fn lemma_lex_trans(a: Seq<char>, b: Seq<char>, c: Seq<char>)
    requires
        lex_le(a, b),
        lex_le(b, c),
    ensures
        lex_le(a, c),
    decreases a.len(),
{
    if a.len() == 0 || b.len() == 0 || c.len() == 0 {
    } else if a[0] == b[0] && b[0] == c[0] {
        lemma_lex_trans(a.skip(1), b.skip(1), c.skip(1));
    }
}

/// Runtime comparison realizing `lex_le`.
pub fn str_lex_le(a: &str, b: &str) -> (r: bool)
    ensures
        r == lex_le(a@, b@),
    decreases a@.len(),
{
    let na = a.unicode_len();
    let nb = b.unicode_len();
    if na == 0 {
        true
    } else if nb == 0 {
        false
    } else {
        let ca = a.get_char(0);
        let cb = b.get_char(0);
        if ca == cb {
            let ra = a.substring_char(1, na);
            let rb = b.substring_char(1, nb);
            proof {
                assert(ra@ =~= a@.skip(1));
                assert(rb@ =~= b@.skip(1));
            }
            str_lex_le(ra, rb)
        } else {
            (ca as u32) < (cb as u32)
        }
    }
}

/// The texts are in lexicographic order.
pub open spec fn sorted_lex(ts: Seq<Seq<char>>) -> bool {
    forall|i: int, j: int| 0 <= i < j < ts.len() ==> lex_le(#[trigger] ts[i], #[trigger] ts[j])
}

/// Sort strings lexicographically by character code; the result holds the
/// same strings, as often as before.
pub fn sort_texts(v: Vec<String>) -> (r: Vec<String>)
    ensures
        sorted_lex(texts_model(r@)),
        texts_model(r@).to_multiset() == texts_model(v@).to_multiset(),
{
    broadcast use vstd::seq_lib::group_to_multiset_ensures;

    let ghost v0 = v@;
    let mut rem = v;
    let mut out: Vec<String> = Vec::new();
    proof {
        assert(texts_model(out@) =~= Seq::<Seq<char>>::empty());
        vstd::multiset::lemma_multiset_empty_len(texts_model(out@).to_multiset());
        assert(texts_model(out@).to_multiset().add(texts_model(rem@).to_multiset())
            =~= texts_model(v0).to_multiset());
    }
    while rem.len() > 0
        invariant
            sorted_lex(texts_model(out@)),
            texts_model(out@).to_multiset().add(texts_model(rem@).to_multiset())
                == texts_model(v0).to_multiset(),
        decreases rem@.len(),
    {
        let ghost out0 = texts_model(out@);
        let ghost rem0 = texts_model(rem@);
        let x = rem.remove(0);
        proof {
            assert(texts_model(rem@) =~= rem0.remove(0));
            vstd::seq_lib::to_multiset_remove(rem0, 0);
            assert(rem0[0] == x@);
            assert(rem0.contains(x@)) by {
                assert(rem0[0] == x@);
            }
            rem0.to_multiset_ensures();
            assert(rem0.to_multiset().count(x@) > 0);
        }
        let pos = sorted_position(&out, &x);
        out.insert(pos, x);
        proof {
            assert(texts_model(out@) =~= out0.insert(pos as int, x@));
            lemma_insert_keeps_sorted(out0, pos as int, x@);
            vstd::seq_lib::to_multiset_insert(out0, pos as int, x@);
            assert(texts_model(out@).to_multiset().add(texts_model(rem@).to_multiset())
                =~= texts_model(v0).to_multiset());
        }
    }
    proof {
        assert(texts_model(rem@) =~= Seq::<Seq<char>>::empty());
        vstd::multiset::lemma_multiset_empty_len(texts_model(rem@).to_multiset());
        assert(texts_model(out@).to_multiset().add(texts_model(rem@).to_multiset())
            =~= texts_model(out@).to_multiset());
    }
    out
}

/// Where `x` belongs in the sorted list `out`: everything before is no
/// greater, everything after is no smaller.
fn sorted_position(out: &Vec<String>, x: &String) -> (pos: usize)
    requires
        sorted_lex(texts_model(out@)),
    ensures
        pos <= out@.len(),
        forall|i: int| 0 <= i < pos ==> lex_le(#[trigger] texts_model(out@)[i], x@),
        forall|i: int| pos <= i < out@.len() ==> lex_le(x@, #[trigger] texts_model(out@)[i]),
{
    let mut pos: usize = 0;
    while pos < out.len()
        invariant
            pos <= out@.len(),
            sorted_lex(texts_model(out@)),
            forall|i: int| 0 <= i < pos ==> lex_le(#[trigger] texts_model(out@)[i], x@),
        decreases out@.len() - pos,
    {
        let le = str_lex_le(out[pos].as_str(), x.as_str());
        if !le {
            proof {
                lemma_lex_total(texts_model(out@)[pos as int], x@);
                assert forall|i: int| pos <= i < out@.len() implies lex_le(
                    x@,
                    #[trigger] texts_model(out@)[i],
                ) by {
                    if i > pos {
                        lemma_lex_trans(x@, texts_model(out@)[pos as int], texts_model(out@)[i]);
                    }
                }
            }
            return pos;
        }
        pos = pos + 1;
    }
    pos
}

/// Inserting at a position bounded by smaller-or-equal elements before and
/// greater-or-equal after keeps the list sorted.
proof fn lemma_insert_keeps_sorted(ts: Seq<Seq<char>>, pos: int, x: Seq<char>)
    requires
        sorted_lex(ts),
        0 <= pos <= ts.len(),
        forall|i: int| 0 <= i < pos ==> lex_le(#[trigger] ts[i], x),
        forall|i: int| pos <= i < ts.len() ==> lex_le(x, #[trigger] ts[i]),
    ensures
        sorted_lex(ts.insert(pos, x)),
{
    let ts2 = ts.insert(pos, x);
    assert forall|i: int, j: int| 0 <= i < j < ts2.len() implies lex_le(
        #[trigger] ts2[i],
        #[trigger] ts2[j],
    ) by {
        if i < pos {
            assert(ts2[i] == ts[i]);
        } else if i == pos {
            assert(ts2[i] == x);
        } else {
            assert(ts2[i] == ts[i - 1]);
        }
        if j < pos {
            assert(ts2[j] == ts[j]);
        } else if j == pos {
            assert(ts2[j] == x);
        } else {
            assert(ts2[j] == ts[j - 1]);
        }
    }
}

pub open spec fn is_ws(c: char) -> bool {
    c == ' ' || c == '\t' || c == '\n' || c == '\r'
}

/// `s` without its trailing whitespace.
pub open spec fn trim_trailing(s: Seq<char>) -> Seq<char>
    decreases s.len(),
{
    if s.len() > 0 && is_ws(s.last()) {
        trim_trailing(s.drop_last())
    } else {
        s
    }
}

/// If everything from `cut` on is whitespace and the character before `cut`
/// is not, then trimming keeps exactly the first `cut` characters.
proof fn lemma_trim_at(s: Seq<char>, cut: int)
    requires
        0 <= cut <= s.len(),
        forall|j: int| cut <= j < s.len() ==> is_ws(#[trigger] s[j]),
        cut > 0 ==> !is_ws(s[cut - 1]),
    ensures
        trim_trailing(s) == s.take(cut),
    decreases s.len(),
{
    if s.len() == cut {
        assert(s.take(cut) =~= s);
    } else {
        assert(is_ws(s.last()));
        lemma_trim_at(s.drop_last(), cut);
        assert(s.drop_last().take(cut) =~= s.take(cut));
    }
}

/// Remove trailing whitespace (space, tab, newline, carriage return).
pub fn trim_trailing_ws(s: &str) -> (r: String)
    ensures
        r@ == trim_trailing(s@),
{
    let n = s.unicode_len();
    let mut cut: usize = n;
    while cut > 0
        invariant
            cut <= n,
            n == s@.len(),
            forall|j: int| cut <= j < s@.len() ==> is_ws(#[trigger] s@[j]),
        ensures
            cut > 0 ==> !is_ws(s@[cut as int - 1]),
        decreases cut,
    {
        let c = s.get_char(cut - 1);
        if c == ' ' || c == '\t' || c == '\n' || c == '\r' {
            cut = cut - 1;
        } else {
            break ;
        }
    }
    proof {
        lemma_trim_at(s@, cut as int);
    }
    let r = s.substring_char(0, cut).to_owned();
    proof {
        assert(r@ =~= s@.take(cut as int));
    }
    r
}

} // verus!
