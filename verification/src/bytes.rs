//! Verified byte-string utilities: equality, substring search, splitting
//! on a separator byte, line splitting, and decimal formatting/parsing.
//! Fields of delimited records are byte strings (`Vec<u8>`), so every
//! record operation in the crate is specified over `Seq<u8>`.

use vstd::prelude::*;

verus! {

/// `nd` occurs as a contiguous run somewhere inside `hay`.
pub open spec fn spec_has_sub(hay: Seq<u8>, nd: Seq<u8>) -> bool {
    exists|i: int|
        0 <= i && i + nd.len() <= hay.len() && #[trigger] hay.subrange(i, i + nd.len()) == nd
}

/// Byte-for-byte equality of two fields.
pub fn field_eq(a: &Vec<u8>, b: &Vec<u8>) -> (r: bool)
    ensures
        r == (a@ == b@),
{
    if a.len() != b.len() {
        return false;
    }
    let mut i: usize = 0;
    while i < a.len()
        invariant
            a@.len() == b@.len(),
            0 <= i <= a@.len(),
            forall|j: int| 0 <= j < i ==> a@[j] == b@[j],
        decreases a@.len() - i,
    {
        if a[i] != b[i] {
            return false;
        }
        i += 1;
    }
    proof {
        assert(a@ =~= b@);
    }
    true
}

/// The bytes of `nd` stand at offset `pos` of `hay`.
fn match_at(hay: &Vec<u8>, nd: &Vec<u8>, pos: usize) -> (r: bool)
    requires
        pos + nd@.len() <= hay@.len(),
    ensures
        r == (hay@.subrange(pos as int, pos + nd@.len()) == nd@),
{
    let hay_len: usize = hay.len();
    let mut j: usize = 0;
    while j < nd.len()
        invariant
            hay_len == hay@.len(),
            pos + nd@.len() <= hay@.len(),
            0 <= j <= nd@.len(),
            forall|t: int| 0 <= t < j ==> hay@[pos + t] == nd@[t],
        decreases nd@.len() - j,
    {
        if hay[pos + j] != nd[j] {
            proof {
                assert(hay@.subrange(pos as int, pos + nd@.len())[j as int] == hay@[pos + j]);
            }
            return false;
        }
        j += 1;
    }
    proof {
        assert(hay@.subrange(pos as int, pos + nd@.len()) =~= nd@);
    }
    true
}

/// Substring search: does `nd` occur anywhere inside `hay`?
pub fn has_sub(hay: &Vec<u8>, nd: &Vec<u8>) -> (r: bool)
    ensures
        r == spec_has_sub(hay@, nd@),
{
    if nd.len() > hay.len() {
        return false;
    }
    let last: usize = hay.len() - nd.len();
    let mut i: usize = 0;
    loop
        invariant
            nd@.len() <= hay@.len(),
            last == hay@.len() - nd@.len(),
            0 <= i <= last,
            forall|k: int| 0 <= k < i ==> #[trigger] hay@.subrange(k, k + nd@.len()) != nd@,
        decreases last - i,
    {
        if match_at(hay, nd, i) {
            assert(spec_has_sub(hay@, nd@)) by {
                assert(hay@.subrange(i as int, i + nd@.len()) == nd@);
            }
            return true;
        }
        if i == last {
            assert(forall|k: int|
                0 <= k <= last ==> #[trigger] hay@.subrange(k, k + nd@.len()) != nd@);
            return false;
        }
        i += 1;
    }
}

/// A fresh copy of `v[a..b]`.
pub fn copy_range(v: &Vec<u8>, a: usize, b: usize) -> (r: Vec<u8>)
    requires
        a <= b <= v@.len(),
    ensures
        r@ == v@.subrange(a as int, b as int),
{
    let mut r: Vec<u8> = Vec::new();
    let mut k: usize = a;
    while k < b
        invariant
            a <= k <= b <= v@.len(),
            r@ == v@.subrange(a as int, k as int),
        decreases b - k,
    {
        r.push(v[k]);
        proof {
            assert(v@.subrange(a as int, k + 1) =~= v@.subrange(a as int, k as int).push(
                v@[k as int],
            ));
        }
        k += 1;
    }
    r
}

/// A fresh copy of a whole field.
pub fn clone_field(f: &Vec<u8>) -> (r: Vec<u8>)
    ensures
        r@ == f@,
{
    let r = copy_range(f, 0, f.len());
    proof {
        assert(f@.subrange(0, f@.len() as int) =~= f@);
    }
    r
}

/// A fresh copy of a whole record.
pub fn clone_record(rec: &Vec<Vec<u8>>) -> (r: Vec<Vec<u8>>)
    ensures
        r.deep_view() == rec.deep_view(),
{
    let mut r: Vec<Vec<u8>> = Vec::new();
    let mut i: usize = 0;
    while i < rec.len()
        invariant
            0 <= i <= rec@.len(),
            r@.len() == i,
            r.deep_view() == rec.deep_view().take(i as int),
        decreases rec@.len() - i,
    {
        assert(r.deep_view().len() == i);
        r.push(clone_field(&rec[i]));
        proof {
            assert(r.deep_view() =~~= rec.deep_view().take(i + 1));
        }
        i += 1;
    }
    proof {
        assert(rec.deep_view().take(rec@.len() as int) =~~= rec.deep_view());
    }
    r
}

/// Appends all of `src` to `dst`.
pub fn append_bytes(dst: &mut Vec<u8>, src: &Vec<u8>)
    ensures
        final(dst)@ == old(dst)@ + src@,
{
    let mut k: usize = 0;
    while k < src.len()
        invariant
            0 <= k <= src@.len(),
            dst@ == old(dst)@ + src@.take(k as int),
        decreases src@.len() - k,
    {
        dst.push(src[k]);
        proof {
            assert(old(dst)@ + src@.take(k + 1) =~= (old(dst)@ + src@.take(k as int)).push(
                src@[k as int],
            ));
        }
        k += 1;
    }
    proof {
        assert(old(dst)@ + src@.take(src@.len() as int) =~= old(dst)@ + src@);
    }
}

/// All of `s` split on `sep`: separators are removed, the segments kept in
/// order; there is always exactly one more segment than separators.
pub open spec fn spec_split(s: Seq<u8>, sep: u8) -> Seq<Seq<u8>>
    decreases s.len(),
{
    if s.len() == 0 {
        seq![Seq::<u8>::empty()]
    } else if s[0] == sep {
        seq![Seq::<u8>::empty()] + spec_split(s.drop_first(), sep)
    } else {
        let rest = spec_split(s.drop_first(), sep);
        seq![seq![s[0]] + rest[0]] + rest.drop_first()
    }
}

proof fn lemma_split_len(s: Seq<u8>, sep: u8)
    ensures
        spec_split(s, sep).len() >= 1,
    decreases s.len(),
{
    if s.len() > 0 {
        lemma_split_len(s.drop_first(), sep);
    }
}

/// Where the first `k` bytes of `s` are free of `sep` and position `k` (if
/// inside `s`) holds `sep`, the split is the prefix before `k` followed by
/// the split of what stands after position `k`.
proof fn lemma_split_at_sep(s: Seq<u8>, sep: u8, k: int)
    requires
        0 <= k <= s.len(),
        forall|j: int| 0 <= j < k ==> s[j] != sep,
        k == s.len() || s[k] == sep,
    ensures
        k == s.len() ==> spec_split(s, sep) == seq![s],
        k < s.len() ==> spec_split(s, sep) == seq![s.take(k)] + spec_split(s.skip(k + 1), sep),
    decreases k,
{
    lemma_split_len(s, sep);
    if k == 0 {
        if s.len() == 0 {
            assert(s =~= Seq::<u8>::empty());
            assert(spec_split(s, sep) =~= seq![s]);
        } else {
            assert(s[0] == sep);
            assert(s.take(0) =~= Seq::<u8>::empty());
            assert(s.skip(1) =~= s.drop_first());
            assert(spec_split(s, sep) =~= seq![s.take(0)] + spec_split(s.skip(1), sep));
        }
    } else {
        let d = s.drop_first();
        assert(forall|j: int| 0 <= j < k - 1 ==> d[j] != sep);
        lemma_split_at_sep(d, sep, k - 1);
        lemma_split_len(d, sep);
        let rest = spec_split(d, sep);
        if k == s.len() {
            assert(rest == seq![d]);
            assert(seq![s[0]] + rest[0] =~= s);
            assert(spec_split(s, sep) =~= seq![s]);
        } else {
            assert(rest == seq![d.take(k - 1)] + spec_split(d.skip(k), sep));
            assert(rest[0] == d.take(k - 1));
            assert(seq![s[0]] + d.take(k - 1) =~= s.take(k));
            assert(rest.drop_first() =~= spec_split(d.skip(k), sep));
            assert(d.skip(k) =~= s.skip(k + 1));
            assert(spec_split(s, sep) =~= seq![s.take(k)] + spec_split(s.skip(k + 1), sep));
        }
    }
}

/// Splits `s` on the separator byte `sep`.
pub fn split_bytes(s: &Vec<u8>, sep: u8) -> (r: Vec<Vec<u8>>)
    ensures
        r.deep_view() == spec_split(s@, sep),
{
    let mut r: Vec<Vec<u8>> = Vec::new();
    let mut start: usize = 0;
    let mut i: usize = 0;
    proof {
        assert(s@.skip(0) =~= s@);
        assert(r.deep_view() =~~= Seq::<Seq<u8>>::empty());
        assert(Seq::<Seq<u8>>::empty() + spec_split(s@, sep) =~~= spec_split(s@, sep));
    }
    while i < s.len()
        invariant
            0 <= start <= i <= s@.len(),
            forall|j: int| start <= j < i ==> s@[j] != sep,
            spec_split(s@, sep) == r.deep_view() + spec_split(s@.skip(start as int), sep),
        decreases s@.len() - i,
    {
        assert(r.deep_view().len() == r@.len());
        if s[i] == sep {
            let seg = copy_range(s, start, i);
            proof {
                let tail = s@.skip(start as int);
                assert(forall|j: int|
                    0 <= j < i - start ==> tail[j] == s@[start + j] && tail[j] != sep);
                assert(tail[i - start] == s@[i as int]);
                lemma_split_at_sep(tail, sep, i - start);
                assert(tail.take(i - start) =~= s@.subrange(start as int, i as int));
                assert(tail.skip(i - start + 1) =~= s@.skip(i + 1));
            }
            let ghost old_dv = r.deep_view();
            r.push(seg);
            proof {
                assert(r.deep_view() =~~= old_dv.push(seg@));
                assert(r.deep_view() + spec_split(s@.skip(i + 1), sep) =~~= old_dv + (seq![seg@]
                    + spec_split(s@.skip(i + 1), sep)));
            }
            start = i + 1;
        }
        i += 1;
    }
    let seg = copy_range(s, start, s.len());
    proof {
        let tail = s@.skip(start as int);
        assert(forall|j: int|
            0 <= j < s@.len() - start ==> tail[j] == s@[start + j] && tail[j] != sep);
        lemma_split_at_sep(tail, sep, s@.len() - start);
        assert(tail =~= s@.subrange(start as int, s@.len() as int));
        assert(spec_split(s@.skip(start as int), sep) == seq![tail]);
    }
    proof {
        assert(r.deep_view().len() == r@.len());
    }
    let ghost old_dv = r.deep_view();
    r.push(seg);
    proof {
        assert(r.deep_view() =~~= old_dv.push(seg@));
        assert(old_dv.push(seg@) =~~= old_dv + seq![seg@]);
    }
    r
}

/// A line with a trailing carriage return loses it.
pub open spec fn spec_strip_cr(l: Seq<u8>) -> Seq<u8> {
    if l.len() > 0 && l.last() == 13u8 {
        l.drop_last()
    } else {
        l
    }
}

/// The lines of a text: segments between newline bytes, a final empty
/// segment after a trailing newline dropped, and a trailing carriage
/// return stripped from each line.
pub open spec fn spec_lines(s: Seq<u8>) -> Seq<Seq<u8>> {
    let parts = spec_split(s, 10u8);
    let kept = if parts.len() > 0 && parts.last() == Seq::<u8>::empty() {
        parts.drop_last()
    } else {
        parts
    };
    kept.map_values(|l: Seq<u8>| spec_strip_cr(l))
}

/// Splits a text into its lines.
pub fn split_lines(s: &Vec<u8>) -> (r: Vec<Vec<u8>>)
    ensures
        r.deep_view() == spec_lines(s@),
{
    let mut parts = split_bytes(s, 10);
    proof {
        lemma_split_len(s@, 10u8);
    }
    if parts.len() > 0 && parts[parts.len() - 1].len() == 0 {
        proof {
            assert(parts.deep_view().last() =~~= Seq::<u8>::empty());
        }
        parts.pop();
        proof {
            assert(parts.deep_view() =~~= spec_split(s@, 10u8).drop_last());
        }
    }
    let ghost kept = parts.deep_view();
    let mut r: Vec<Vec<u8>> = Vec::new();
    let mut i: usize = 0;
    while i < parts.len()
        invariant
            0 <= i <= parts@.len(),
            r@.len() == i,
            parts.deep_view() == kept,
            kept.len() == parts@.len(),
            r.deep_view() == kept.map_values(|l: Seq<u8>| spec_strip_cr(l)).take(i as int),
        decreases parts@.len() - i,
    {
        assert(r.deep_view().len() == i);
        let p = &parts[i];
        let line = if p.len() > 0 && p[p.len() - 1] == 13 {
            copy_range(p, 0, p.len() - 1)
        } else {
            clone_field(p)
        };
        proof {
            assert(p@ == kept[i as int]);
            if p@.len() > 0 && p@.last() == 13u8 {
                assert(p@.subrange(0, p@.len() - 1) =~= p@.drop_last());
            }
            assert(line@ == spec_strip_cr(kept[i as int]));
        }
        r.push(line);
        proof {
            assert(r.deep_view() =~~= kept.map_values(|l: Seq<u8>| spec_strip_cr(l)).take(i + 1));
        }
        i += 1;
    }
    proof {
        let m = kept.map_values(|l: Seq<u8>| spec_strip_cr(l));
        assert(m.take(parts@.len() as int) =~~= m);
    }
    r
}

/// The decimal digit characters of `n`, most significant first.
pub open spec fn spec_dec(n: nat) -> Seq<u8>
    decreases n,
{
    if n < 10 {
        seq![(48 + n) as u8]
    } else {
        spec_dec((n / 10) as nat).push((48 + n % 10) as u8)
    }
}

proof fn lemma_reverse_push(s: Seq<u8>, x: u8)
    ensures
        s.push(x).reverse() == seq![x] + s.reverse(),
{
    assert(s.push(x).reverse() =~= seq![x] + s.reverse());
}

/// Writes `n` in decimal.
pub fn dec_u64(n: u64) -> (r: Vec<u8>)
    ensures
        r@ == spec_dec(n as nat),
{
    let mut acc: Vec<u8> = Vec::new();
    let mut m: u64 = n;
    proof {
        assert(Seq::<u8>::empty().reverse() =~= Seq::<u8>::empty());
        assert(spec_dec(n as nat) =~= spec_dec(m as nat) + acc@.reverse());
    }
    while m >= 10
        invariant
            spec_dec(n as nat) == spec_dec(m as nat) + acc@.reverse(),
        decreases m,
    {
        let d: u8 = (m % 10) as u8 + 48;
        proof {
            assert(spec_dec(m as nat) == spec_dec((m as nat / 10) as nat).push(
                (48 + m as nat % 10) as u8,
            ));
            assert(d == (48 + m as nat % 10) as u8);
            lemma_reverse_push(acc@, d);
            assert(spec_dec((m as nat / 10) as nat).push(d) + acc@.reverse() =~= spec_dec(
                (m as nat / 10) as nat,
            ) + acc@.push(d).reverse());
        }
        acc.push(d);
        m = m / 10;
    }
    let d: u8 = m as u8 + 48;
    proof {
        assert(spec_dec(m as nat) == seq![(48 + m as nat) as u8]);
        assert(d == (48 + m as nat) as u8);
        lemma_reverse_push(acc@, d);
        assert(seq![d] + acc@.reverse() =~= acc@.push(d).reverse());
    }
    acc.push(d);
    let ghost digits = spec_dec(n as nat);
    proof {
        assert(digits == acc@.reverse());
    }
    let mut r: Vec<u8> = Vec::new();
    let mut k: usize = acc.len();
    while k > 0
        invariant
            0 <= k <= acc@.len(),
            digits == acc@.reverse(),
            r@ == acc@.reverse().take(acc@.len() - k),
        decreases k,
    {
        k -= 1;
        r.push(acc[k]);
        proof {
            assert(acc@.reverse().take(acc@.len() - k) =~= acc@.reverse().take(
                acc@.len() - (k + 1),
            ).push(acc@[k as int]));
        }
    }
    proof {
        assert(acc@.reverse().take(acc@.len() as int) =~= acc@.reverse());
    }
    r
}

/// Every byte of `s` is a decimal digit character.
pub open spec fn spec_all_digits(s: Seq<u8>) -> bool {
    forall|i: int| 0 <= i < s.len() ==> 48 <= #[trigger] s[i] <= 57
}

/// The integer a string of decimal digit characters denotes.
pub open spec fn spec_dec_value(s: Seq<u8>) -> int
    decreases s.len(),
{
    if s.len() == 0 {
        0
    } else {
        spec_dec_value(s.drop_last()) * 10 + s.last() - 48
    }
}

proof fn lemma_dec_value_nonneg(s: Seq<u8>)
    requires
        spec_all_digits(s),
    ensures
        spec_dec_value(s) >= 0,
    decreases s.len(),
{
    if s.len() > 0 {
        assert(spec_all_digits(s.drop_last()));
        lemma_dec_value_nonneg(s.drop_last());
    }
}

/// With every byte a digit, a longer prefix denotes no smaller a value.
proof fn lemma_dec_value_prefix_le(s: Seq<u8>, j: int)
    requires
        spec_all_digits(s),
        0 <= j <= s.len(),
    ensures
        spec_dec_value(s.take(j)) <= spec_dec_value(s),
    decreases s.len() - j,
{
    if j == s.len() {
        assert(s.take(j) =~= s);
    } else {
        assert(s.take(j + 1).drop_last() =~= s.take(j));
        assert(spec_all_digits(s.take(j)));
        lemma_dec_value_nonneg(s.take(j));
        assert(spec_dec_value(s.take(j + 1)) == spec_dec_value(s.take(j)) * 10 + s[j] - 48);
        lemma_dec_value_prefix_le(s, j + 1);
    }
}

/// Reads a decimal integer: defined exactly for the nonempty all-digit
/// strings whose value fits in a `u64`.
pub fn parse_u64(s: &Vec<u8>) -> (r: Option<u64>)
    ensures
        r is Some <==> (s@.len() > 0 && spec_all_digits(s@) && spec_dec_value(s@) <= u64::MAX),
        r is Some ==> r.unwrap() as int == spec_dec_value(s@),
{
    if s.len() == 0 {
        return None;
    }
    let mut acc: u64 = 0;
    let mut i: usize = 0;
    while i < s.len()
        invariant
            0 < s@.len(),
            0 <= i <= s@.len(),
            spec_all_digits(s@.take(i as int)),
            acc as int == spec_dec_value(s@.take(i as int)),
        decreases s@.len() - i,
    {
        let c = s[i];
        if c < 48 || c > 57 {
            return None;
        }
        let d: u64 = (c - 48) as u64;
        proof {
            assert(s@.take(i + 1).drop_last() =~= s@.take(i as int));
            assert(spec_all_digits(s@.take(i + 1)));
            assert(spec_dec_value(s@.take(i + 1)) == acc as int * 10 + d);
        }
        if acc > (u64::MAX - d) / 10 {
            proof {
                assert(acc as int * 10 + d > u64::MAX) by (nonlinear_arith)
                    requires
                        acc > (u64::MAX - d) / 10,
                        0 <= d <= 9,
                        acc <= u64::MAX,
                ;
                if spec_all_digits(s@) {
                    lemma_dec_value_prefix_le(s@, i + 1);
                }
            }
            return None;
        }
        proof {
            assert(acc as int * 10 + d <= u64::MAX) by (nonlinear_arith)
                requires
                    acc <= (u64::MAX - d) / 10,
                    0 <= d <= 9,
            ;
        }
        acc = acc * 10 + d;
        i += 1;
    }
    proof {
        assert(s@.take(s@.len() as int) =~= s@);
    }
    Some(acc)
}

} // verus!
