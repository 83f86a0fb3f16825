//! Parameter sets and their canonical, order-independent signature.
use crate::order::{key_less, key_lt, lemma_key_lt_irreflexive, lemma_key_lt_total, lemma_key_lt_transitive};
use crate::VideoService;
use sha1::Digest;
use vstd::prelude::*;
use vstd::utf8::*;

verus! {

/// A value that takes part in signing: text, or a signed 64-bit integer.
pub enum ParamValue {
    Str(String),
    Int(i64),
}

/// The mathematical value of a `ParamValue`.
pub enum ParamSpec {
    Str(Seq<char>),
    Int(i64),
}

impl View for ParamValue {
    type V = ParamSpec;

    open spec fn view(&self) -> ParamSpec {
        match self {
            ParamValue::Str(s) => ParamSpec::Str(s@),
            ParamValue::Int(i) => ParamSpec::Int(*i),
        }
    }
}

pub open spec fn decimal_digit(d: int) -> char {
    seq!['0', '1', '2', '3', '4', '5', '6', '7', '8', '9'][d]
}

/// Base-10 digits of a natural number, most significant first, no leading zero.
pub open spec fn digits_of(n: nat) -> Seq<char>
    decreases n,
{
    if n < 10 {
        seq![decimal_digit(n as int)]
    } else {
        digits_of(n / 10).push(decimal_digit((n % 10) as int))
    }
}

/// Base-10 rendering of an integer, with a leading `-` when negative.
pub open spec fn decimal_of(i: int) -> Seq<char> {
    if i < 0 {
        seq!['-'] + digits_of((-i) as nat)
    } else {
        digits_of(i as nat)
    }
}

/// The canonical text of a value: text verbatim, integers in decimal.
pub open spec fn rendered(v: ParamSpec) -> Seq<char> {
    match v {
        ParamSpec::Str(s) => s,
        ParamSpec::Int(i) => decimal_of(i as int),
    }
}

pub open spec fn pair_text(k: Seq<char>, v: ParamSpec) -> Seq<char> {
    k + seq!['='] + rendered(v)
}

/// `key=value` pairs in the given order, separated by `&`.
pub open spec fn joined(s: Seq<(Seq<char>, ParamSpec)>) -> Seq<char>
    decreases s.len(),
{
    if s.len() == 0 {
        Seq::empty()
    } else if s.len() == 1 {
        pair_text(s[0].0, s[0].1)
    } else {
        joined(s.drop_last()) + seq!['&'] + pair_text(s.last().0, s.last().1)
    }
}

pub open spec fn strictly_sorted(s: Seq<(Seq<char>, ParamSpec)>) -> bool {
    forall|i: int, j: int| 0 <= i < j < s.len() ==> key_lt(#[trigger] s[i].0, #[trigger] s[j].0)
}

pub open spec fn distinct_keys(s: Seq<(Seq<char>, ParamSpec)>) -> bool {
    forall|i: int, j: int| 0 <= i < j < s.len() ==> #[trigger] s[i].0 != #[trigger] s[j].0
}

/// The map from names to values that a sequence of entries describes.
pub open spec fn entries_map(s: Seq<(Seq<char>, ParamSpec)>) -> Map<Seq<char>, ParamSpec>
    decreases s.len(),
{
    if s.len() == 0 {
        Map::empty()
    } else {
        entries_map(s.drop_last()).insert(s.last().0, s.last().1)
    }
}

/// The entries of a map, sorted by name.
pub open spec fn sorted_entries(m: Map<Seq<char>, ParamSpec>) -> Seq<(Seq<char>, ParamSpec)> {
    choose|s: Seq<(Seq<char>, ParamSpec)>| strictly_sorted(s) && entries_map(s) == m
}

/// The canonical string of a parameter set: its pairs sorted by name and joined.
pub open spec fn canonical(m: Map<Seq<char>, ParamSpec>) -> Seq<char> {
    joined(sorted_entries(m))
}

/// What is hashed: the canonical string followed directly by the secret.
pub open spec fn signing_input(m: Map<Seq<char>, ParamSpec>, secret: Seq<char>) -> Seq<char> {
    canonical(m) + secret
}

/// The SHA-1 digest of a byte string.
pub uninterp spec fn sha1_of(data: Seq<u8>) -> Seq<u8>;

pub open spec fn hex_digit(d: int) -> char {
    seq!['0', '1', '2', '3', '4', '5', '6', '7', '8', '9', 'a', 'b', 'c', 'd', 'e', 'f'][d]
}

/// Lower-case hexadecimal: two digits per byte, high nibble first.
pub open spec fn hex_lower(b: Seq<u8>) -> Seq<char> {
    Seq::new(
        2 * b.len(),
        |i: int|
            hex_digit(
                if i % 2 == 0 {
                    (b[i / 2] / 16) as int
                } else {
                    (b[i / 2] % 16) as int
                },
            ),
    )
}

/// The signature of a parameter set under a secret.
pub open spec fn signature_of(m: Map<Seq<char>, ParamSpec>, secret: Seq<char>) -> Seq<char> {
    hex_lower(sha1_of(encode_utf8(signing_input(m, secret))))
}

pub proof fn lemma_sorted_distinct(s: Seq<(Seq<char>, ParamSpec)>)
    requires
        strictly_sorted(s),
    ensures
        distinct_keys(s),
{
    assert forall|i: int, j: int| 0 <= i < j < s.len() implies #[trigger] s[i].0 != #[trigger] s[j].0 by {
        lemma_key_lt_irreflexive(s[i].0);
    }
}

/// Which names a sequence of entries maps, and to what.
pub proof fn lemma_entries_map(s: Seq<(Seq<char>, ParamSpec)>)
    requires
        distinct_keys(s),
    ensures
        forall|k: Seq<char>| #[trigger] entries_map(s).contains_key(k) <==> exists|i: int|
            0 <= i < s.len() && s[i].0 == k,
        forall|i: int| 0 <= i < s.len() ==> entries_map(s)[#[trigger] s[i].0] == s[i].1,
    decreases s.len(),
{
    if s.len() > 0 {
        let p = s.drop_last();
        assert(distinct_keys(p)) by {
            assert forall|i: int, j: int| 0 <= i < j < p.len() implies #[trigger] p[i].0
                != #[trigger] p[j].0 by {
                assert(s[i].0 != s[j].0);
            }
        }
        lemma_entries_map(p);
        assert forall|k: Seq<char>| #[trigger] entries_map(s).contains_key(k) <==> exists|i: int|
            0 <= i < s.len() && s[i].0 == k by {
            if entries_map(s).contains_key(k) && k != s.last().0 {
                assert(entries_map(p).contains_key(k));
                let i = choose|i: int| 0 <= i < p.len() && p[i].0 == k;
                assert(p[i] == s[i]);
                assert(s[i].0 == k);
            }
            if exists|i: int| 0 <= i < s.len() && s[i].0 == k {
                let i = choose|i: int| 0 <= i < s.len() && s[i].0 == k;
                if i < s.len() - 1 {
                    assert(p[i] == s[i]);
                    assert(p[i].0 == k);
                    assert(entries_map(p).contains_key(k));
                }
            }
        }
        assert forall|i: int| 0 <= i < s.len() implies entries_map(s)[#[trigger] s[i].0]
            == s[i].1 by {
            if i < s.len() - 1 {
                assert(s[i].0 != s[s.len() - 1].0);
                assert(p[i] == s[i]);
            }
        }
    }
}

/// A map has at most one sorted sequence of entries.
pub proof fn lemma_sorted_unique(s1: Seq<(Seq<char>, ParamSpec)>, s2: Seq<(Seq<char>, ParamSpec)>)
    requires
        strictly_sorted(s1),
        strictly_sorted(s2),
        entries_map(s1) == entries_map(s2),
    ensures
        s1 == s2,
    decreases s1.len() + s2.len(),
{
    lemma_sorted_distinct(s1);
    lemma_sorted_distinct(s2);
    lemma_entries_map(s1);
    lemma_entries_map(s2);
    if s1.len() == 0 && s2.len() == 0 {
        assert(s1 =~= s2);
    } else if s1.len() == 0 {
        assert(entries_map(s2).contains_key(s2.last().0));
    } else if s2.len() == 0 {
        assert(entries_map(s1).contains_key(s1.last().0));
    } else {
        let n1 = s1.len() - 1;
        let n2 = s2.len() - 1;
        let a = s1[n1].0;
        let b = s2[n2].0;
        assert(entries_map(s1).contains_key(a));
        assert(entries_map(s2).contains_key(b));
        let j = choose|j: int| 0 <= j < s2.len() && s2[j].0 == a;
        let i = choose|i: int| 0 <= i < s1.len() && s1[i].0 == b;
        if a != b {
            assert(j < n2);
            assert(i < n1);
            assert(key_lt(a, b));
            assert(key_lt(b, a));
            lemma_key_lt_transitive(a, b, a);
            lemma_key_lt_irreflexive(a);
        }
        assert(s1[n1].1 == s2[n2].1);
        let p1 = s1.drop_last();
        let p2 = s2.drop_last();
        assert(distinct_keys(p1) && distinct_keys(p2)) by {
            assert forall|x: int, y: int| 0 <= x < y < p1.len() implies #[trigger] p1[x].0
                != #[trigger] p1[y].0 by {
                assert(s1[x].0 != s1[y].0);
            }
            assert forall|x: int, y: int| 0 <= x < y < p2.len() implies #[trigger] p2[x].0
                != #[trigger] p2[y].0 by {
                assert(s2[x].0 != s2[y].0);
            }
        }
        lemma_entries_map(p1);
        lemma_entries_map(p2);
        assert(entries_map(p1) =~= entries_map(p2)) by {
            assert forall|k: Seq<char>| #[trigger] entries_map(p1).contains_key(k)
                implies entries_map(p2).contains_key(k) && entries_map(p1)[k] == entries_map(p2)[k] by {
                let x = choose|x: int| 0 <= x < p1.len() && p1[x].0 == k;
                assert(s1[x].0 != s1[n1].0);
                assert(entries_map(s1).contains_key(k));
                let y = choose|y: int| 0 <= y < s2.len() && s2[y].0 == k;
                assert(y != n2);
                assert(p2[y].0 == k);
                assert(entries_map(s1)[k] == s1[x].1);
                assert(entries_map(s2)[k] == s2[y].1);
            }
            assert forall|k: Seq<char>| #[trigger] entries_map(p2).contains_key(k)
                implies entries_map(p1).contains_key(k) by {
                let y = choose|y: int| 0 <= y < p2.len() && p2[y].0 == k;
                assert(s2[y].0 != s2[n2].0);
                assert(entries_map(s2).contains_key(k));
                let x = choose|x: int| 0 <= x < s1.len() && s1[x].0 == k;
                assert(x != n1);
                assert(p1[x].0 == k);
            }
        }
        lemma_sorted_unique(p1, p2);
        assert(s1 =~= s2) by {
            assert(s1 =~= p1.push(s1[n1]));
            assert(s2 =~= p2.push(s2[n2]));
        }
    }
}

/// The canonical string of the map that sorted entries describe is their join.
pub proof fn lemma_canonical_of_sorted(s: Seq<(Seq<char>, ParamSpec)>)
    requires
        strictly_sorted(s),
    ensures
        canonical(entries_map(s)) == joined(s),
{
    let t = sorted_entries(entries_map(s));
    assert(strictly_sorted(s) && entries_map(s) == entries_map(s));
    lemma_sorted_unique(t, s);
}

/// Relies on `sha1::Sha1::digest`: the 20-byte SHA-1 digest of the input.
#[verifier::external_body]
fn sha1_digest(data: &[u8]) -> (r: Vec<u8>)
    ensures
        r@ == sha1_of(data@),
        r@.len() == 20,
{
    sha1::Sha1::digest(data).to_vec()
}

/// Relies on `hex::encode`: each byte as two lower-case hex digits, high nibble first.
#[verifier::external_body]
fn to_hex(data: &[u8]) -> (r: String)
    ensures
        r@ == hex_lower(data@),
{
    hex::encode(data)
}

fn digit_text(d: u64) -> (r: &'static str)
    requires
        d < 10,
    ensures
        r@ == seq![decimal_digit(d as int)],
{
    proof {
        reveal_strlit("0");
        reveal_strlit("1");
        reveal_strlit("2");
        reveal_strlit("3");
        reveal_strlit("4");
        reveal_strlit("5");
        reveal_strlit("6");
        reveal_strlit("7");
        reveal_strlit("8");
        reveal_strlit("9");
    }
    match d {
        0 => "0",
        1 => "1",
        2 => "2",
        3 => "3",
        4 => "4",
        5 => "5",
        6 => "6",
        7 => "7",
        8 => "8",
        _ => "9",
    }
}

fn push_digits(out: &mut String, n: u64)
    ensures
        final(out)@ == old(out)@ + digits_of(n as nat),
    decreases n,
{
    if n >= 10 {
        push_digits(out, n / 10);
    }
    out.append(digit_text(n % 10));
    assert(final(out)@ =~= old(out)@ + digits_of(n as nat));
}

/// Appends the decimal rendering of `v`.
pub fn push_decimal(out: &mut String, v: i64)
    ensures
        final(out)@ == old(out)@ + decimal_of(v as int),
{
    if v < 0 {
        proof {
            reveal_strlit("-");
        }
        out.append("-");
        let magnitude: u64 = (-(v as i128)) as u64;
        push_digits(out, magnitude);
        assert(final(out)@ =~= old(out)@ + decimal_of(v as int));
    } else {
        push_digits(out, v as u64);
    }
}

/// The decimal rendering of an integer.
pub fn decimal_string(v: i64) -> (r: String)
    ensures
        r@ == decimal_of(v as int),
{
    let mut out = String::new();
    push_decimal(&mut out, v);
    assert(out@ =~= decimal_of(v as int));
    out
}

/// A set of named values to sign. Names are unique; the entries are kept
/// sorted by the bytes of their names, so insertion order never shows.
pub struct ParameterSet {
    entries: Vec<(String, ParamValue)>,
}

impl ParameterSet {
    pub closed spec fn model(&self) -> Seq<(Seq<char>, ParamSpec)> {
        Seq::new(self.entries@.len(), |i: int| (self.entries@[i].0@, self.entries@[i].1@))
    }

    /// The entries are strictly sorted by name.
    pub closed spec fn wf(&self) -> bool {
        strictly_sorted(self.model())
    }

    /// An empty set.
    pub fn new() -> (r: ParameterSet)
        ensures
            r.wf(),
            r@ == Map::<Seq<char>, ParamSpec>::empty(),
    {
        let r = ParameterSet { entries: Vec::new() };
        assert(r.model() =~= Seq::empty());
        r
    }

    /// Index of the first entry whose name does not sort before `key`.
    fn position_of(&self, key: &str) -> (j: usize)
        ensures
            j <= self.model().len(),
            forall|i: int| 0 <= i < j ==> key_lt(#[trigger] self.model()[i].0, key@),
            j < self.model().len() ==> !key_lt(self.model()[j as int].0, key@),
    {
        let n = self.entries.len();
        let mut j: usize = 0;
        while j < n
            invariant
                n == self.model().len(),
                j <= n,
                forall|i: int| 0 <= i < j ==> key_lt(#[trigger] self.model()[i].0, key@),
            decreases n - j,
        {
            if !key_less(self.entries[j].0.as_str(), key) {
                return j;
            }
            j = j + 1;
        }
        j
    }

    /// Sets `key` to `value`, replacing any earlier value under that name.
    pub fn insert(&mut self, key: String, value: ParamValue)
        requires
            old(self).wf(),
        ensures
            final(self).wf(),
            final(self)@ == old(self)@.insert(key@, value@),
    {
        let ghost m0 = self.model();
        let ghost k = key@;
        let ghost v = value@;
        let j = self.position_of(key.as_str());
        let replace = j < self.entries.len() && self.entries[j].0 == key;
        if replace {
            self.entries.remove(j);
        }
        self.entries.insert(j, (key, value));
        let ghost m1 = self.model();
        proof {
            if replace {
                assert(m1 =~= m0.update(j as int, (k, v)));
            } else {
                assert(m1 =~= m0.insert(j as int, (k, v)));
                if j < m0.len() {
                    lemma_key_lt_total(m0[j as int].0, k);
                }
            }
            assert forall|a: int, b: int| 0 <= a < b < m1.len() implies key_lt(
                #[trigger] m1[a].0,
                #[trigger] m1[b].0,
            ) by {
                if replace {
                    if a == j {
                        assert(key_lt(m0[a].0, m0[b].0));
                    }
                    if b == j {
                        assert(key_lt(m0[a].0, m0[b].0));
                    }
                } else {
                    if a == j && b > j + 1 {
                        lemma_key_lt_transitive(k, m0[j as int].0, m0[b - 1].0);
                    }
                    if a < j && b > j {
                        assert(key_lt(m0[a].0, m0[b - 1].0));
                    }
                    if a > j {
                        assert(key_lt(m0[a - 1].0, m0[b - 1].0));
                    }
                }
            }
            lemma_sorted_distinct(m0);
            lemma_sorted_distinct(m1);
            lemma_entries_map(m0);
            lemma_entries_map(m1);
            assert forall|q: Seq<char>| #[trigger] entries_map(m1).contains_key(q)
                <==> entries_map(m0).insert(k, v).contains_key(q) by {
                if q != k && entries_map(m1).contains_key(q) {
                    let x = choose|x: int| 0 <= x < m1.len() && m1[x].0 == q;
                    if replace || x < j {
                        assert(m0[x].0 == q);
                    } else {
                        assert(m0[x - 1].0 == q);
                    }
                }
                if q != k && entries_map(m0).contains_key(q) {
                    let x = choose|x: int| 0 <= x < m0.len() && m0[x].0 == q;
                    if replace || x < j {
                        assert(m1[x].0 == q);
                    } else {
                        assert(m1[x + 1].0 == q);
                    }
                }
                if q == k {
                    assert(m1[j as int].0 == k);
                }
            }
            assert forall|q: Seq<char>| #[trigger] entries_map(m1).contains_key(q)
                implies entries_map(m1)[q] == entries_map(m0).insert(k, v)[q] by {
                let x = choose|x: int| 0 <= x < m1.len() && m1[x].0 == q;
                if x != j {
                    if x < j {
                        assert(m1[x].0 != m1[j as int].0);
                    } else {
                        assert(m1[j as int].0 != m1[x].0);
                    }
                    if replace || x < j {
                        assert(m0[x] == m1[x]);
                    } else {
                        assert(m0[x - 1] == m1[x]);
                    }
                }
            }
            assert(entries_map(m1) =~= entries_map(m0).insert(k, v));
        }
    }
}

/// Two parameter sets with the same names and values keep their entries in
/// the same order, so they have the same canonical string and, under any
/// secret, the same signature, however each was filled.
pub proof fn lemma_same_contents_same_signature(p1: &ParameterSet, p2: &ParameterSet, secret: Seq<char>)
    requires
        p1.wf(),
        p2.wf(),
        p1@ == p2@,
    ensures
        p1.model() == p2.model(),
        canonical(p1@) == canonical(p2@),
        signature_of(p1@, secret) == signature_of(p2@, secret),
{
    lemma_sorted_unique(p1.model(), p2.model());
}

/// Inserting two different names in either order gives the same contents,
/// hence the same signature.
pub proof fn lemma_insertion_order_irrelevant(
    m: Map<Seq<char>, ParamSpec>,
    k1: Seq<char>,
    v1: ParamSpec,
    k2: Seq<char>,
    v2: ParamSpec,
    secret: Seq<char>,
)
    requires
        k1 != k2,
    ensures
        m.insert(k1, v1).insert(k2, v2) == m.insert(k2, v2).insert(k1, v1),
        signature_of(m.insert(k1, v1).insert(k2, v2), secret) == signature_of(
            m.insert(k2, v2).insert(k1, v1),
            secret,
        ),
{
    assert(m.insert(k1, v1).insert(k2, v2) =~= m.insert(k2, v2).insert(k1, v1));
}

impl View for ParameterSet {
    type V = Map<Seq<char>, ParamSpec>;

    closed spec fn view(&self) -> Map<Seq<char>, ParamSpec> {
        entries_map(self.model())
    }
}

impl VideoService {
    /// Signs `params` with `api_secret`: the lower-case hex SHA-1 digest of the
    /// UTF-8 bytes of the canonical string followed by the secret.
    pub fn generate_signature(params: &ParameterSet, api_secret: &str) -> (r: String)
        requires
            params.wf(),
        ensures
            r@ == signature_of(params@, api_secret@),
            r@.len() == 40,
    {
        let mut text = VideoService::canonical_string(params);
        text.append(api_secret);
        let digest = sha1_digest(text.as_str().as_bytes());
        to_hex(digest.as_slice())
    }

    /// The canonical string of `params`: `name=value` pairs sorted by the
    /// bytes of the names and joined by `&`.
    pub fn canonical_string(params: &ParameterSet) -> (r: String)
        requires
            params.wf(),
        ensures
            r@ == canonical(params@),
    {
        proof {
            reveal_strlit("&");
            reveal_strlit("=");
            assert("&"@ =~= seq!['&']);
            assert("="@ =~= seq!['=']);
        }
        let ghost m = params.model();
        let n = params.entries.len();
        let mut text = String::new();
        let mut i: usize = 0;
        while i < n
            invariant
                n == m.len(),
                m == params.model(),
                i <= n,
                text@ == joined(m.take(i as int)),
                "&"@ == seq!['&'],
                "="@ == seq!['='],
            decreases n - i,
        {
            let ghost before = text@;
            if i > 0 {
                text.append("&");
            }
            let ghost sep = text@;
            text.append(params.entries[i].0.as_str());
            text.append("=");
            let ghost mid = text@;
            match &params.entries[i].1 {
                ParamValue::Str(s) => text.append(s.as_str()),
                ParamValue::Int(v) => push_decimal(&mut text, *v),
            }
            proof {
                let e = m[i as int];
                assert(e.0 == params.entries@[i as int].0@);
                assert(e.1 == params.entries@[i as int].1@);
                assert(mid =~= sep + e.0 + seq!['=']);
                assert(text@ =~= mid + rendered(e.1));
                let t = m.take(i + 1);
                assert(t.drop_last() =~= m.take(i as int));
                assert(t.last() == e);
                if i == 0 {
                    assert(sep =~= Seq::<char>::empty());
                    assert(text@ =~= pair_text(e.0, e.1));
                } else {
                    assert(sep =~= before + seq!['&']);
                    assert(text@ =~= joined(m.take(i as int)) + seq!['&'] + pair_text(e.0, e.1));
                }
            }
            i = i + 1;
        }
        proof {
            assert(m.take(n as int) =~= m);
            lemma_canonical_of_sorted(m);
        }
        text
    }
}

} // verus!
