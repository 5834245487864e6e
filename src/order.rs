//! Which entries are shown and in what order: hidden-file filtering, sorting and reversal.
use vstd::prelude::*;
use vstd::utf8::{char_is_scalar, char_u32_cast, encode_scalar, encode_utf8, has_width_1_encoding, has_width_2_encoding, has_width_3_encoding};
use crate::entry::{DisplayFlags, Entry};

verus! {

/// Whether a name is hidden: it starts with a dot.
pub open spec fn is_hidden(name: Seq<char>) -> bool {
    name.len() > 0 && name[0] == '.'
}

/// Whether an entry is listed: every entry with `all`, else those whose name is not hidden.
pub open spec fn shown(all: bool) -> spec_fn(Entry) -> bool {
    |e: Entry| all || !is_hidden(e.name@)
}

proof fn lemma_first_byte(s: Seq<char>)
    requires
        s.len() > 0,
    ensures
        encode_utf8(s).len() > 0,
        (encode_utf8(s)[0] == 46u8) == (s[0] == '.'),
{
    let c = s[0] as u32;
    char_is_scalar(s[0]);
    let enc = encode_scalar(c);
    assert(encode_utf8(s) == enc + encode_utf8(s.drop_first()));
    if has_width_1_encoding(c) {
        assert(c & 0x7F == c) by (bit_vector)
            requires
                c <= 0x7F,
        ;
        if c == 46 {
            char_u32_cast(s[0], c);
            char_u32_cast('.', 46);
        }
    } else if has_width_2_encoding(c) {
        let b = ((c >> 6) & 0x1F) as u8;
        assert(0xC0u8 | b != 46u8) by (bit_vector);
    } else if has_width_3_encoding(c) {
        let b = ((c >> 12) & 0x0F) as u8;
        assert(0xE0u8 | b != 46u8) by (bit_vector);
    } else {
        let b = ((c >> 18) & 0x7) as u8;
        assert(0xF0u8 | b != 46u8) by (bit_vector);
    }
}

/// Whether `name` starts with a dot.
pub fn is_hidden_name(name: &str) -> (r: bool)
    ensures
        r == is_hidden(name@),
{
    let bytes = name.as_bytes();
    proof {
        if name@.len() > 0 {
            lemma_first_byte(name@);
        } else {
            assert(encode_utf8(name@).len() == 0);
        }
    }
    bytes.len() > 0 && bytes[0] == 46u8
}

/// Reverses the order of `entries`.
pub fn reverse_entries(entries: Vec<Entry>) -> (r: Vec<Entry>)
    ensures
        r@ == entries@.reverse(),
{
    let ghost orig = entries@;
    let mut src = entries;
    let mut out: Vec<Entry> = Vec::new();
    while src.len() > 0
        invariant
            src@ == orig.take(orig.len() - out@.len()),
            out@.len() <= orig.len(),
            forall|j: int| 0 <= j < out@.len() ==> out@[j] == orig[orig.len() - 1 - j],
        decreases src@.len(),
    {
        let e = src.pop().unwrap();
        out.push(e);
    }
    proof {
        assert(out@ =~= orig.reverse());
    }
    out
}

/// Drops hidden entries unless `all` is set, keeping the order of the rest.
pub fn filter_hidden(entries: Vec<Entry>, all: bool) -> (r: Vec<Entry>)
    ensures
        r@ == entries@.filter(shown(all)),
{
    let ghost orig = entries@;
    let n = entries.len();
    let mut src = reverse_entries(entries);
    let mut out: Vec<Entry> = Vec::new();
    let mut k: usize = 0;
    while k < n
        invariant
            n == orig.len(),
            0 <= k <= n,
            src@ == orig.reverse().take(n - k),
            out@ == orig.take(k as int).filter(shown(all)),
        decreases n - k,
    {
        let e = src.pop().unwrap();
        proof {
            assert(e == orig[k as int]);
            assert(orig.take(k + 1) =~= orig.take(k as int).push(e));
            orig.take(k as int).lemma_filter_push(e, shown(all));
            assert(src@ =~= orig.reverse().take(n - k - 1));
        }
        if all || !is_hidden_name(e.name.as_str()) {
            out.push(e);
        }
        k = k + 1;
    }
    proof {
        assert(orig.take(n as int) =~= orig);
    }
    out
}

/// Filtering twice keeps the same entries as filtering once.
pub proof fn lemma_filter_idempotent(s: Seq<Entry>, all: bool)
    ensures
        s.filter(shown(all)).filter(shown(all)) == s.filter(shown(all)),
    decreases s.len(),
{
    let p = shown(all);
    if s.len() == 0 {
        assert(s.filter(p) =~= Seq::<Entry>::empty());
        assert(s.filter(p).filter(p) =~= Seq::<Entry>::empty());
    } else {
        let rest = s.drop_last();
        lemma_filter_idempotent(rest, all);
        assert(s =~= rest.push(s.last()));
        rest.lemma_filter_push(s.last(), p);
        if p(s.last()) {
            rest.filter(p).lemma_filter_push(s.last(), p);
        }
    }
}

/// Reversing twice gives back the same sequence.
pub proof fn lemma_reverse_involutive(s: Seq<Entry>)
    ensures
        s.reverse().reverse() == s,
{
    assert(s.reverse().reverse() =~= s);
}

/// Byte-wise lexicographic order: `a` sorts before or equal to `b`.
pub open spec fn lex_le(a: Seq<u8>, b: Seq<u8>) -> bool
    decreases a.len(),
{
    if a.len() == 0 {
        true
    } else if b.len() == 0 {
        false
    } else if a[0] != b[0] {
        a[0] < b[0]
    } else {
        lex_le(a.drop_first(), b.drop_first())
    }
}

/// Of two byte strings, one sorts before or equal to the other.
pub proof fn lemma_lex_total(a: Seq<u8>, b: Seq<u8>)
    ensures
        lex_le(a, b) || lex_le(b, a),
    decreases a.len(),
{
    if a.len() > 0 && b.len() > 0 && a[0] == b[0] {
        lemma_lex_total(a.drop_first(), b.drop_first());
    }
}

/// The lexicographic order is transitive.
pub proof fn lemma_lex_trans(a: Seq<u8>, b: Seq<u8>, c: Seq<u8>)
    requires
        lex_le(a, b),
        lex_le(b, c),
    ensures
        lex_le(a, c),
    decreases a.len(),
{
    if a.len() > 0 && b.len() > 0 && c.len() > 0 && a[0] == b[0] && b[0] == c[0] {
        lemma_lex_trans(a.drop_first(), b.drop_first(), c.drop_first());
    }
}

/// Whether the bytes `a` sort before or equal to the bytes `b`.
pub fn bytes_le(a: &[u8], b: &[u8]) -> (r: bool)
    ensures
        r == lex_le(a@, b@),
{
    let mut i: usize = 0;
    proof {
        assert(a@.skip(0) =~= a@);
        assert(b@.skip(0) =~= b@);
    }
    while i < a.len() && i < b.len() && a[i] == b[i]
        invariant
            0 <= i <= a@.len(),
            i <= b@.len(),
            lex_le(a@, b@) == lex_le(a@.skip(i as int), b@.skip(i as int)),
        decreases a@.len() - i,
    {
        proof {
            assert(a@.skip(i as int).drop_first() =~= a@.skip(i + 1));
            assert(b@.skip(i as int).drop_first() =~= b@.skip(i + 1));
        }
        i = i + 1;
    }
    if i == a.len() {
        true
    } else if i == b.len() {
        false
    } else {
        a[i] < b[i]
    }
}

/// The lowercase form of a text, as `str::to_lowercase` computes it.
pub uninterp spec fn lower_of(s: Seq<char>) -> Seq<char>;

/// Relies on `str::to_lowercase`: the lowercase form depends on the characters alone.
#[verifier::external_body]
fn lowercase(s: &str) -> (r: String)
    ensures
        r@ == lower_of(s@),
{
    s.to_lowercase()
}

/// The text an entry is sorted by: its full path, lowercased unless the order is case-sensitive.
pub open spec fn sort_text(e: Entry, case_sensitive: bool) -> Seq<char> {
    if case_sensitive { e.path@ } else { lower_of(e.path@) }
}

/// The bytes an entry is sorted by.
pub open spec fn sort_key(e: Entry, case_sensitive: bool) -> Seq<u8> {
    encode_utf8(sort_text(e, case_sensitive))
}

/// The entries whose sort key is `k`.
pub open spec fn with_key(k: Seq<u8>, case_sensitive: bool) -> spec_fn(Entry) -> bool {
    |e: Entry| sort_key(e, case_sensitive) == k
}

/// `s` is in ascending order of sort keys.
pub open spec fn is_sorted(s: Seq<Entry>, case_sensitive: bool) -> bool {
    forall|i: int, j: int|
        0 <= i < j < s.len() ==> lex_le(
            #[trigger] sort_key(s[i], case_sensitive),
            #[trigger] sort_key(s[j], case_sensitive),
        )
}

/// `r` is `s` sorted stably: ascending by key, entries of equal key in their order in `s`.
pub open spec fn stable_sorted(r: Seq<Entry>, s: Seq<Entry>, case_sensitive: bool) -> bool {
    &&& is_sorted(r, case_sensitive)
    &&& forall|k: Seq<u8>| #[trigger] r.filter(with_key(k, case_sensitive)) == s.filter(with_key(k, case_sensitive))
}

fn entry_key(e: &Entry, case_sensitive: bool) -> (r: String)
    ensures
        r@ == sort_text(*e, case_sensitive),
{
    if case_sensitive {
        e.path.clone()
    } else {
        lowercase(e.path.as_str())
    }
}

proof fn lemma_filter_none(s: Seq<Entry>, p: spec_fn(Entry) -> bool)
    requires
        forall|i: int| 0 <= i < s.len() ==> !p(#[trigger] s[i]),
    ensures
        s.filter(p) == Seq::<Entry>::empty(),
    decreases s.len(),
{
    if s.len() == 0 {
        assert(s.filter(p) =~= Seq::<Entry>::empty());
    } else {
        let rest = s.drop_last();
        assert forall|i: int| 0 <= i < rest.len() implies !p(#[trigger] rest[i]) by {
            assert(rest[i] == s[i]);
        }
        lemma_filter_none(rest, p);
        assert(s =~= rest.push(s.last()));
        rest.lemma_filter_push(s.last(), p);
    }
}

/// Sorts entries stably by their sort key: bytes of the path, or of its lowercase form.
pub fn sort_entries(entries: Vec<Entry>, case_sensitive: bool) -> (r: Vec<Entry>)
    ensures
        stable_sorted(r@, entries@, case_sensitive),
{
    let ghost orig = entries@;
    let n = entries.len();
    let mut src = reverse_entries(entries);
    let mut out: Vec<Entry> = Vec::new();
    let mut keys: Vec<String> = Vec::new();
    let mut k: usize = 0;
    while k < n
        invariant
            n == orig.len(),
            0 <= k <= n,
            src@ == orig.reverse().take(n - k),
            out@.len() == keys@.len(),
            forall|j: int| 0 <= j < keys@.len() ==> encode_utf8(#[trigger] keys@[j]@) == sort_key(out@[j], case_sensitive),
            is_sorted(out@, case_sensitive),
            forall|kk: Seq<u8>| #[trigger] out@.filter(with_key(kk, case_sensitive)) == orig.take(k as int).filter(with_key(kk, case_sensitive)),
        decreases n - k,
    {
        let e = src.pop().unwrap();
        proof {
            assert(e == orig[k as int]);
            assert(src@ =~= orig.reverse().take(n - k - 1));
        }
        let key = entry_key(&e, case_sensitive);
        let ghost kb = sort_key(e, case_sensitive);
        let mut j: usize = 0;
        while j < out.len() && bytes_le(keys[j].as_str().as_bytes(), key.as_str().as_bytes())
            invariant
                0 <= j <= out@.len(),
                out@.len() == keys@.len(),
                key@ == sort_text(e, case_sensitive),
                kb == sort_key(e, case_sensitive),
                forall|jj: int| 0 <= jj < keys@.len() ==> encode_utf8(#[trigger] keys@[jj]@) == sort_key(out@[jj], case_sensitive),
                forall|m: int| 0 <= m < j ==> lex_le(#[trigger] sort_key(out@[m], case_sensitive), kb),
            decreases out@.len() - j,
        {
            j = j + 1;
        }
        let ghost old_out = out@;
        proof {
            if j < old_out.len() {
                assert(!lex_le(sort_key(old_out[j as int], case_sensitive), kb));
                lemma_lex_total(sort_key(old_out[j as int], case_sensitive), kb);
                assert forall|m: int| j <= m < old_out.len() implies lex_le(kb, #[trigger] sort_key(old_out[m], case_sensitive))
                    && sort_key(old_out[m], case_sensitive) != kb by {
                    if m > j {
                        assert(lex_le(sort_key(old_out[j as int], case_sensitive), sort_key(old_out[m], case_sensitive)));
                        lemma_lex_trans(kb, sort_key(old_out[j as int], case_sensitive), sort_key(old_out[m], case_sensitive));
                    }
                }
            }
        }
        out.insert(j, e);
        keys.insert(j, key);
        proof {
            let new_out = out@;
            assert(new_out =~= old_out.take(j as int) + seq![e] + old_out.skip(j as int));
            assert(old_out =~= old_out.take(j as int) + old_out.skip(j as int));
            assert forall|a: int, b: int| 0 <= a < b < new_out.len() implies lex_le(
                #[trigger] sort_key(new_out[a], case_sensitive),
                #[trigger] sort_key(new_out[b], case_sensitive),
            ) by {
                if b < j {
                } else if b == j {
                } else if a < j {
                    assert(lex_le(sort_key(old_out[a], case_sensitive), kb));
                    assert(lex_le(kb, sort_key(old_out[b - 1], case_sensitive)));
                    lemma_lex_trans(sort_key(old_out[a], case_sensitive), kb, sort_key(old_out[b - 1], case_sensitive));
                } else if a == j {
                } else {
                    assert(new_out[a] == old_out[a - 1]);
                    assert(new_out[b] == old_out[b - 1]);
                }
            }
            assert(orig.take(k + 1) =~= orig.take(k as int).push(e));
            assert forall|kk: Seq<u8>| #[trigger] new_out.filter(with_key(kk, case_sensitive)) == orig.take(k + 1).filter(with_key(kk, case_sensitive)) by {
                let p = with_key(kk, case_sensitive);
                let pre = old_out.take(j as int);
                let post = old_out.skip(j as int);
                Seq::filter_distributes_over_add(pre + seq![e], post, p);
                Seq::filter_distributes_over_add(pre, seq![e], p);
                Seq::filter_distributes_over_add(pre, post, p);
                orig.take(k as int).lemma_filter_push(e, p);
                assert(old_out.filter(p) == orig.take(k as int).filter(p));
                assert(seq![e].filter(p) =~= if p(e) { seq![e] } else { Seq::<Entry>::empty() }) by {
                    Seq::<Entry>::empty().lemma_filter_push(e, p);
                    assert(Seq::<Entry>::empty().push(e) =~= seq![e]);
                    assert(Seq::<Entry>::empty().filter(p) =~= Seq::<Entry>::empty());
                }
                if p(e) {
                    assert forall|m: int| 0 <= m < post.len() implies !p(#[trigger] post[m]) by {
                        assert(post[m] == old_out[j + m]);
                    }
                    lemma_filter_none(post, p);
                    assert(new_out.filter(p) =~= old_out.filter(p).push(e));
                } else {
                    assert(new_out.filter(p) =~= old_out.filter(p));
                }
            }
        }
        k = k + 1;
    }
    proof {
        assert(orig.take(n as int) =~= orig);
    }
    out
}

/// Every entry of `r` is an entry of `s`.
pub open spec fn drawn_from(r: Seq<Entry>, s: Seq<Entry>) -> bool {
    forall|i: int| 0 <= i < r.len() ==> s.contains(#[trigger] r[i])
}

/// A stable sort only rearranges entries.
pub proof fn lemma_sorted_drawn_from(r: Seq<Entry>, s: Seq<Entry>, case_sensitive: bool)
    requires
        stable_sorted(r, s, case_sensitive),
    ensures
        drawn_from(r, s),
{
    assert forall|i: int| 0 <= i < r.len() implies s.contains(#[trigger] r[i]) by {
        let p = with_key(sort_key(r[i], case_sensitive), case_sensitive);
        r.lemma_filter_contains(p, i);
        assert(r.filter(p) == s.filter(p));
        s.lemma_filter_contains_rev(p, r[i]);
    }
}

/// Filtering keeps only entries of the filtered list.
pub proof fn lemma_filter_drawn_from(s: Seq<Entry>, p: spec_fn(Entry) -> bool)
    ensures
        drawn_from(s.filter(p), s),
{
    assert forall|i: int| 0 <= i < s.filter(p).len() implies s.contains(#[trigger] s.filter(p)[i]) by {
        assert(s.filter(p).contains(s.filter(p)[i]));
        s.lemma_filter_contains_rev(p, s.filter(p)[i]);
    }
}

/// `r` is what a listing shows of `s` under `flags`: the shown entries, sorted stably
/// unless the listing is unsorted, then reversed if asked.
pub open spec fn ordered(r: Seq<Entry>, s: Seq<Entry>, flags: DisplayFlags) -> bool {
    let kept = s.filter(shown(flags.all));
    let base = if flags.reverse { r.reverse() } else { r };
    if flags.unsorted {
        base == kept
    } else {
        stable_sorted(base, kept, flags.case_sensitive)
    }
}

/// Filters, sorts and reverses `entries` as `flags` ask.
pub fn order_entries(entries: Vec<Entry>, flags: &DisplayFlags) -> (r: Vec<Entry>)
    ensures
        ordered(r@, entries@, *flags),
        drawn_from(r@, entries@),
{
    let ghost orig = entries@;
    let kept = filter_hidden(entries, flags.all);
    proof {
        lemma_filter_drawn_from(orig, shown(flags.all));
    }
    let arranged = if flags.unsorted {
        kept
    } else {
        let ghost before = kept@;
        let sorted = sort_entries(kept, flags.case_sensitive);
        proof {
            lemma_sorted_drawn_from(sorted@, before, flags.case_sensitive);
        }
        sorted
    };
    assert(drawn_from(arranged@, orig)) by {
        assert forall|i: int| 0 <= i < arranged@.len() implies orig.contains(#[trigger] arranged@[i]) by {
            let kept_seq = orig.filter(shown(flags.all));
            assert(kept_seq.contains(arranged@[i]));
            let w = choose|w: int| 0 <= w < kept_seq.len() && kept_seq[w] == arranged@[i];
            assert(orig.contains(kept_seq[w]));
        }
    }
    if flags.reverse {
        let ghost before = arranged@;
        let r = reverse_entries(arranged);
        proof {
            lemma_reverse_involutive(before);
            assert forall|i: int| 0 <= i < r@.len() implies orig.contains(#[trigger] r@[i]) by {
                assert(r@[i] == before[before.len() - 1 - i]);
            }
        }
        r
    } else {
        arranged
    }
}

} // verus!
