//! JSON objects as the engine sees them: a set of keys, each with the compact
//! JSON text of its value. Two values are the same when their texts are.
use vstd::prelude::*;
use vstd::utf8::encode_utf8;

verus! {

/// The entries of an object, as key and value text.
pub type JsonEntries = Seq<(Seq<char>, Seq<char>)>;

/// Each key occurs at most once.
pub open spec fn keys_unique(s: JsonEntries) -> bool {
    forall|i: int, j: int|
        0 <= i < s.len() && 0 <= j < s.len() && #[trigger] s[i].0 == #[trigger] s[j].0 ==> i == j
}

/// Whether some entry has key `k`.
pub open spec fn has_key(s: JsonEntries, k: Seq<char>) -> bool {
    exists|i: int| 0 <= i < s.len() && #[trigger] s[i].0 == k
}

/// The object as a map from key to value text.
pub open spec fn entries_map(s: JsonEntries) -> Map<Seq<char>, Seq<char>> {
    Map::new(
        |k: Seq<char>| has_key(s, k),
        |k: Seq<char>| s[choose|i: int| 0 <= i < s.len() && #[trigger] s[i].0 == k].1,
    )
}

/// What serde_json parses from `text` when it asks for a JSON object: the
/// object's keys with the compact text of each value, or nothing where the
/// text is not JSON or not an object.
pub uninterp spec fn parsed_object(text: Seq<char>) -> Option<JsonEntries>;

/// A lowercase hexadecimal digit.
pub open spec fn hex_digit(d: int) -> char {
    if d < 10 {
        (d + 48) as char
    } else {
        (d + 87) as char
    }
}

/// How serde_json writes one character inside a string literal: the quote
/// and the backslash get a backslash, the control characters with a short
/// escape get it, the other control characters get `\u00xx`, and everything
/// else stands as it is.
pub open spec fn escaped_char(c: char) -> Seq<char> {
    if c == '"' {
        seq!['\\', '"']
    } else if c == '\\' {
        seq!['\\', '\\']
    } else if c == '\u{8}' {
        seq!['\\', 'b']
    } else if c == '\t' {
        seq!['\\', 't']
    } else if c == '\n' {
        seq!['\\', 'n']
    } else if c == '\u{c}' {
        seq!['\\', 'f']
    } else if c == '\r' {
        seq!['\\', 'r']
    } else if (c as int) < 32 {
        seq!['\\', 'u', '0', '0', hex_digit((c as int) / 16), hex_digit((c as int) % 16)]
    } else {
        seq![c]
    }
}

/// The characters of `s`, each escaped.
pub open spec fn escaped_chars(s: Seq<char>) -> Seq<char>
    decreases s.len(),
{
    if s.len() == 0 {
        Seq::empty()
    } else {
        escaped_chars(s.drop_last()) + escaped_char(s.last())
    }
}

/// The JSON string literal that serde_json writes for `s`, quotes included.
pub open spec fn json_string_literal(s: Seq<char>) -> Seq<char> {
    seq!['"'] + escaped_chars(s) + seq!['"']
}

/// The text of the entries of an object, without the braces.
pub open spec fn members_text(s: JsonEntries) -> Seq<char>
    decreases s.len(),
{
    if s.len() == 0 {
        Seq::empty()
    } else {
        let pre = members_text(s.drop_last());
        let sep = if s.len() > 1 { seq![','] } else { Seq::empty() };
        pre + sep + json_string_literal(s.last().0) + seq![':'] + s.last().1
    }
}

/// The compact text of an object with the given entries, in their order.
pub open spec fn object_text(s: JsonEntries) -> Seq<char> {
    seq!['{'] + members_text(s) + seq!['}']
}

/// Relies on serde_json::from_str (into `serde_json::Map<String, Value>`),
/// which succeeds exactly on the texts of JSON objects, and on the `Display`
/// of `serde_json::Value`, which writes a value compactly. The map has each
/// key once.
#[verifier::external_body]
fn parse_object_entries(text: &str) -> (r: Option<Vec<(String, String)>>)
    ensures
        r matches Some(v) ==> parsed_object(text@) == Some(v@.map_values(
            |e: (String, String)| (e.0@, e.1@),
        )),
        r is None ==> parsed_object(text@) is None,
        r matches Some(v) ==> keys_unique(v@.map_values(|e: (String, String)| (e.0@, e.1@))),
{
    match serde_json::from_str::<serde_json::Map<String, serde_json::Value>>(text) {
        Ok(m) => {
            let mut v = Vec::new();
            for (k, val) in m {
                v.push((k, val.to_string()));
            }
            Some(v)
        },
        Err(_) => None,
    }
}

/// Relies on serde_json::to_string on a `str` (its `format_escaped_str`):
/// the string in double quotes, escaped as `escaped_char` says. Serialising
/// a string cannot fail.
#[verifier::external_body]
fn string_literal(s: &str) -> (r: String)
    ensures
        r@ == json_string_literal(s@),
{
    match serde_json::to_string(s) {
        Ok(t) => t,
        Err(_) => String::new(),
    }
}

/// A JSON object: its entries, each key with the compact text of its value.
#[derive(Debug)]
pub struct JsonMap {
    entries: Vec<(String, String)>,
}

impl View for JsonMap {
    type V = JsonEntries;

    closed spec fn view(&self) -> JsonEntries {
        self.entries@.map_values(|e: (String, String)| (e.0@, e.1@))
    }
}

impl JsonMap {
    /// The object's keys are unique.
    pub open spec fn wf(&self) -> bool {
        keys_unique(self@)
    }

    /// The object as a map from key to value text.
    pub open spec fn map(&self) -> Map<Seq<char>, Seq<char>> {
        entries_map(self@)
    }

    /// The empty object.
    pub fn new() -> (r: JsonMap)
        ensures
            r.wf(),
            r@ == Seq::<(Seq<char>, Seq<char>)>::empty(),
    {
        let r = JsonMap { entries: Vec::new() };
        assert(r@ =~= Seq::<(Seq<char>, Seq<char>)>::empty());
        r
    }

    /// Parses JSON text. Text that is not JSON, or JSON that is not an object,
    /// gives `None`: bad data is treated as absent rather than as an error.
    pub fn parse(text: &str) -> (r: Option<JsonMap>)
        ensures
            r is None <==> parsed_object(text@) is None,
            r matches Some(m) ==> m.wf() && parsed_object(text@) == Some(m@),
    {
        match parse_object_entries(text) {
            Some(v) => Some(JsonMap { entries: v }),
            None => None,
        }
    }

    /// The number of entries.
    pub fn len(&self) -> (r: usize)
        ensures
            r == self@.len(),
    {
        self.entries.len()
    }

    /// The key and value text of entry `i`.
    pub fn entry(&self, i: usize) -> (r: (&String, &String))
        requires
            i < self@.len(),
        ensures
            r.0@ == self@[i as int].0,
            r.1@ == self@[i as int].1,
    {
        let e = &self.entries[i];
        (&e.0, &e.1)
    }

    /// The index of the entry with key `k`, if any.
    pub fn find(&self, k: &String) -> (r: Option<usize>)
        ensures
            r matches Some(i) ==> i < self@.len() && self@[i as int].0 == k@,
            r is None ==> !has_key(self@, k@),
    {
        let mut i: usize = 0;
        while i < self.entries.len()
            invariant
                i <= self.entries.len(),
                forall|j: int| 0 <= j < i ==> #[trigger] self@[j].0 != k@,
            decreases self.entries.len() - i,
        {
            if self.entries[i].0 == *k {
                return Some(i);
            }
            i = i + 1;
        }
        None
    }

    /// The value text under key `k`, if any.
    pub fn get(&self, k: &String) -> (r: Option<&String>)
        requires
            self.wf(),
        ensures
            r is None <==> !self.map().contains_key(k@),
            r matches Some(v) ==> self.map()[k@] == v@,
    {
        match self.find(k) {
            Some(i) => {
                proof {
                    lemma_entry_in_map(self@, i as int);
                }
                Some(&self.entries[i].1)
            },
            None => None,
        }
    }

    /// The index of the first entry whose key does not come before `k`.
    fn first_not_below(&self, k: &String) -> (r: usize)
        ensures
            r <= self@.len(),
            forall|a: int| 0 <= a < r ==> key_lt(#[trigger] self@[a].0, k@),
            r < self@.len() ==> !key_lt(self@[r as int].0, k@),
    {
        let mut i: usize = 0;
        while i < self.entries.len()
            invariant
                i <= self.entries.len(),
                forall|a: int| 0 <= a < i ==> key_lt(#[trigger] self@[a].0, k@),
            decreases self.entries.len() - i,
        {
            assert(self@[i as int].0 == self.entries@[i as int].0@);
            if !key_less(&self.entries[i].0, k) {
                return i;
            }
            i = i + 1;
        }
        i
    }

    /// Sets key `k` to value text `v`, keeping the keys in increasing order.
    pub fn insert_sorted(&mut self, k: String, v: String)
        requires
            keys_sorted(old(self)@),
        ensures
            keys_sorted(final(self)@),
            final(self).wf(),
            final(self).map() == old(self).map().insert(k@, v@),
    {
        let ghost kv = k@;
        let ghost vv = v@;
        let ghost s0 = self@;
        proof {
            lemma_sorted_unique(s0);
        }
        let i = self.first_not_below(&k);
        if i < self.entries.len() && self.entries[i].0 == k {
            self.entries.set(i, (k, v));
            proof {
                assert(self@ =~= s0.update(i as int, (kv, vv)));
                lemma_map_update(s0, i as int, vv);
                assert forall|a: int, b: int| 0 <= a < b < self@.len() implies key_lt(
                    #[trigger] self@[a].0,
                    #[trigger] self@[b].0,
                ) by {
                    assert(self@[a].0 == s0[a].0 && self@[b].0 == s0[b].0);
                }
            }
        } else {
            proof {
                if i < s0.len() {
                    lemma_key_order(s0[i as int].0, kv);
                    assert(key_lt(kv, s0[i as int].0));
                }
                assert forall|a: int| 0 <= a < s0.len() implies #[trigger] s0[a].0 != kv by {
                    lemma_key_order(s0[a].0, kv);
                    if a > i {
                        assert(key_lt(s0[i as int].0, s0[a].0));
                        lemma_key_lt_trans(kv, s0[i as int].0, s0[a].0);
                    }
                }
            }
            self.entries.insert(i, (k, v));
            proof {
                let t = s0.insert(i as int, (kv, vv));
                assert(self@ =~= t);
                assert forall|a: int, b: int| 0 <= a < b < t.len() implies key_lt(
                    #[trigger] t[a].0,
                    #[trigger] t[b].0,
                ) by {
                    if b < i {
                        assert(t[a] == s0[a] && t[b] == s0[b]);
                    } else if b == i {
                        assert(t[a] == s0[a]);
                    } else if a == i {
                        assert(t[b] == s0[b - 1]);
                        if b - 1 > i {
                            assert(key_lt(s0[i as int].0, s0[b - 1].0));
                            lemma_key_lt_trans(kv, s0[i as int].0, s0[b - 1].0);
                        }
                    } else if a < i {
                        assert(t[a] == s0[a] && t[b] == s0[b - 1]);
                        if b - 1 >= i {
                            assert(key_lt(kv, s0[i as int].0));
                            if b - 1 > i {
                                assert(key_lt(s0[i as int].0, s0[b - 1].0));
                                lemma_key_lt_trans(kv, s0[i as int].0, s0[b - 1].0);
                            }
                            lemma_key_lt_trans(s0[a].0, kv, s0[b - 1].0);
                        }
                    } else {
                        assert(t[a] == s0[a - 1] && t[b] == s0[b - 1]);
                    }
                }
                lemma_sorted_unique(t);
                lemma_map_insert_new(s0, i as int, kv, vv);
            }
        }
    }

    /// Whether the two objects have the same keys with the same value texts.
    pub fn same_as(&self, other: &JsonMap) -> (r: bool)
        requires
            self.wf(),
            other.wf(),
        ensures
            r == (self.map() == other.map()),
    {
        let a = self.covered_by(other);
        let b = other.covered_by(self);
        proof {
            if a && b {
                assert(self.map() =~= other.map());
            }
        }
        a && b
    }

    /// Whether every entry of `self` is in `other` with the same value text.
    fn covered_by(&self, other: &JsonMap) -> (r: bool)
        requires
            self.wf(),
            other.wf(),
        ensures
            r == (forall|k: Seq<char>| #[trigger] self.map().contains_key(k)
                ==> other.map().contains_key(k) && other.map()[k] == self.map()[k]),
    {
        let mut i: usize = 0;
        while i < self.entries.len()
            invariant
                self.wf(),
                other.wf(),
                i <= self.entries.len(),
                forall|j: int| 0 <= j < i ==> #[trigger] other.map().contains_key(self@[j].0)
                    && other.map()[self@[j].0] == self@[j].1,
            decreases self.entries.len() - i,
        {
            let e = &self.entries[i];
            assert(self@[i as int] == (e.0@, e.1@));
            proof {
                lemma_entry_in_map(self@, i as int);
            }
            assert(self.map().contains_key(self@[i as int].0));
            match other.get(&e.0) {
                Some(v) => {
                    if !(*v == e.1) {
                        return false;
                    }
                },
                None => {
                    return false;
                },
            }
            assert(other.map().contains_key(self@[i as int].0) && other.map()[self@[i as int].0]
                == self@[i as int].1);
            assert forall|j: int| 0 <= j < i + 1 implies #[trigger] other.map().contains_key(
                self@[j].0,
            ) && other.map()[self@[j].0] == self@[j].1 by {
                if j < i {
                    assert(other.map().contains_key(self@[j].0));
                }
            }
            i = i + 1;
        }
        proof {
            assert forall|k: Seq<char>| #[trigger] self.map().contains_key(k)
                implies other.map().contains_key(k) && other.map()[k] == self.map()[k] by {
                let j = choose|j: int| 0 <= j < self@.len() && #[trigger] self@[j].0 == k;
                lemma_entry_in_map(self@, j);
            }
        }
        true
    }

    /// The compact JSON text of the object, entries in their order.
    pub fn to_json_text(&self) -> (r: String)
        ensures
            r@ == object_text(self@),
    {
        proof {
            reveal_strlit("{");
            reveal_strlit("}");
            reveal_strlit(",");
            reveal_strlit(":");
            assert(self@.take(0) =~= Seq::<(Seq<char>, Seq<char>)>::empty());
        }
        let mut out = String::from_str("{");
        assert(out@ =~= seq!['{'] + members_text(self@.take(0)));
        let mut i: usize = 0;
        while i < self.entries.len()
            invariant
                i <= self.entries.len(),
                out@ == seq!['{'] + members_text(self@.take(i as int)),
            decreases self.entries.len() - i,
        {
            let e = &self.entries[i];
            assert(self@[i as int] == (e.0@, e.1@));
            let ghost before = out@;
            proof {
                reveal_strlit(",");
                reveal_strlit(":");
            }
            if i > 0 {
                out.append(",");
            }
            let key = string_literal(e.0.as_str());
            out.append(key.as_str());
            out.append(":");
            out.append(e.1.as_str());
            proof {
                let t = self@.take(i as int + 1);
                assert(t.drop_last() =~= self@.take(i as int));
                assert(t.last() == self@[i as int]);
                let sep = if t.len() > 1 { seq![','] } else { Seq::<char>::empty() };
                assert(members_text(t) == members_text(self@.take(i as int)) + sep
                    + json_string_literal(e.0@) + seq![':'] + e.1@);
                assert(out@ =~= before + sep + json_string_literal(e.0@) + seq![':'] + e.1@);
                assert(out@ =~= seq!['{'] + members_text(t));
            }
            i = i + 1;
        }
        out.append("}");
        proof {
            reveal_strlit("}");
            assert(self@.take(self@.len() as int) =~= self@);
        }
        out
    }
}

impl PartialEq for JsonMap {
    /// Entry by entry, in order.
    fn eq(&self, other: &JsonMap) -> (r: bool) {
        if self.entries.len() != other.entries.len() {
            assert(self@.len() != other@.len());
            return false;
        }
        let mut i: usize = 0;
        while i < self.entries.len()
            invariant
                i <= self.entries.len(),
                self.entries.len() == other.entries.len(),
                forall|j: int| 0 <= j < i ==> #[trigger] self@[j] == other@[j],
            decreases self.entries.len() - i,
        {
            let a = &self.entries[i];
            let b = &other.entries[i];
            assert(self@[i as int] == (a.0@, a.1@) && other@[i as int] == (b.0@, b.1@));
            if !(a.0 == b.0) || !(a.1 == b.1) {
                assert(self@[i as int] != other@[i as int]);
                assert(self@ != other@);
                return false;
            }
            i = i + 1;
        }
        assert(self@ =~= other@);
        true
    }
}

impl vstd::std_specs::cmp::PartialEqSpecImpl for JsonMap {
    open spec fn obeys_eq_spec() -> bool {
        true
    }

    open spec fn eq_spec(&self, other: &JsonMap) -> bool {
        self@ == other@
    }
}

/// Lexicographic order of byte strings: the order of `String` and of the
/// keys of serde_json's map.
pub open spec fn bytes_lt(x: Seq<u8>, y: Seq<u8>) -> bool
    decreases x.len(),
{
    if x.len() == 0 {
        y.len() > 0
    } else if y.len() == 0 {
        false
    } else if x[0] != y[0] {
        x[0] < y[0]
    } else {
        bytes_lt(x.drop_first(), y.drop_first())
    }
}

/// Key `a` comes before key `b`: their UTF-8 bytes are in order.
pub open spec fn key_lt(a: Seq<char>, b: Seq<char>) -> bool {
    bytes_lt(encode_utf8(a), encode_utf8(b))
}

/// The keys are in increasing order (so each occurs once).
pub open spec fn keys_sorted(s: JsonEntries) -> bool {
    forall|i: int, j: int| 0 <= i < j < s.len() ==> key_lt(#[trigger] s[i].0, #[trigger] s[j].0)
}

proof fn lemma_bytes_lt_irrefl(x: Seq<u8>)
    ensures
        !bytes_lt(x, x),
    decreases x.len(),
{
    if x.len() > 0 {
        lemma_bytes_lt_irrefl(x.drop_first());
    }
}

proof fn lemma_bytes_lt_asym(x: Seq<u8>, y: Seq<u8>)
    ensures
        !(bytes_lt(x, y) && bytes_lt(y, x)),
    decreases x.len(),
{
    if x.len() > 0 && y.len() > 0 && x[0] == y[0] {
        lemma_bytes_lt_asym(x.drop_first(), y.drop_first());
    }
}

proof fn lemma_bytes_lt_trans(x: Seq<u8>, y: Seq<u8>, z: Seq<u8>)
    requires
        bytes_lt(x, y),
        bytes_lt(y, z),
    ensures
        bytes_lt(x, z),
    decreases x.len(),
{
    if x.len() > 0 && y.len() > 0 && z.len() > 0 && x[0] == y[0] && y[0] == z[0] {
        lemma_bytes_lt_trans(x.drop_first(), y.drop_first(), z.drop_first());
    }
}

proof fn lemma_bytes_lt_total(x: Seq<u8>, y: Seq<u8>)
    ensures
        x == y || bytes_lt(x, y) || bytes_lt(y, x),
    decreases x.len(),
{
    if x.len() > 0 && y.len() > 0 && x[0] == y[0] {
        lemma_bytes_lt_total(x.drop_first(), y.drop_first());
        if x.drop_first() == y.drop_first() {
            assert(x =~= seq![x[0]] + x.drop_first());
            assert(y =~= seq![y[0]] + y.drop_first());
        }
    } else if x.len() == 0 && y.len() == 0 {
        assert(x =~= y);
    }
}

/// Distinct keys are in one order or the other, and only one.
pub proof fn lemma_key_order(a: Seq<char>, b: Seq<char>)
    ensures
        !key_lt(a, a),
        !(key_lt(a, b) && key_lt(b, a)),
        a == b || key_lt(a, b) || key_lt(b, a),
{
    broadcast use vstd::utf8::encode_utf8_decode_utf8;

    lemma_bytes_lt_irrefl(encode_utf8(a));
    lemma_bytes_lt_asym(encode_utf8(a), encode_utf8(b));
    lemma_bytes_lt_total(encode_utf8(a), encode_utf8(b));
    assert(vstd::utf8::decode_utf8(encode_utf8(a)) == a);
    assert(vstd::utf8::decode_utf8(encode_utf8(b)) == b);
}

/// The order of keys is transitive.
pub proof fn lemma_key_lt_trans(a: Seq<char>, b: Seq<char>, c: Seq<char>)
    requires
        key_lt(a, b),
        key_lt(b, c),
    ensures
        key_lt(a, c),
{
    lemma_bytes_lt_trans(encode_utf8(a), encode_utf8(b), encode_utf8(c));
}

/// Sorted keys are unique.
pub proof fn lemma_sorted_unique(s: JsonEntries)
    requires
        keys_sorted(s),
    ensures
        keys_unique(s),
{
    assert forall|i: int, j: int|
        0 <= i < s.len() && 0 <= j < s.len() && #[trigger] s[i].0 == #[trigger] s[j].0 implies i
        == j by {
        lemma_key_order(s[i].0, s[j].0);
        if i < j {
            assert(key_lt(s[i].0, s[j].0));
        } else if j < i {
            assert(key_lt(s[j].0, s[i].0));
        }
    }
}

/// Whether key `a` comes before key `b`.
pub fn key_less(a: &String, b: &String) -> (r: bool)
    ensures
        r == key_lt(a@, b@),
{
    let x = a.as_str().as_bytes();
    let y = b.as_str().as_bytes();
    let ghost xs = x@;
    let ghost ys = y@;
    assert(xs == encode_utf8(a@));
    assert(ys == encode_utf8(b@));
    assert(xs.skip(0) =~= xs);
    assert(ys.skip(0) =~= ys);
    let mut i: usize = 0;
    while i < x.len() && i < y.len()
        invariant
            xs == x@,
            ys == y@,
            xs == encode_utf8(a@),
            ys == encode_utf8(b@),
            i <= xs.len(),
            i <= ys.len(),
            bytes_lt(xs, ys) == bytes_lt(xs.skip(i as int), ys.skip(i as int)),
        decreases xs.len() - i,
    {
        let ghost xi = xs.skip(i as int);
        let ghost yi = ys.skip(i as int);
        assert(xi.len() > 0 && yi.len() > 0);
        assert(xi[0] == x[i as int] && yi[0] == y[i as int]);
        if x[i] != y[i] {
            assert(bytes_lt(xi, yi) == (xi[0] < yi[0]));
            return x[i] < y[i];
        }
        assert(xi.drop_first() =~= xs.skip(i as int + 1));
        assert(yi.drop_first() =~= ys.skip(i as int + 1));
        i = i + 1;
    }
    assert(xs.skip(i as int).len() == xs.len() - i);
    assert(ys.skip(i as int).len() == ys.len() - i);
    assert(bytes_lt(xs.skip(i as int), ys.skip(i as int)) == (i < ys.len()));
    i < y.len()
}

/// With unique keys, entry `i`/// With unique keys, entry `i` is what the map holds under its key.
pub proof fn lemma_entry_in_map(s: JsonEntries, i: int)
    requires
        keys_unique(s),
        0 <= i < s.len(),
    ensures
        entries_map(s).contains_key(s[i].0),
        entries_map(s)[s[i].0] == s[i].1,
{
    assert(has_key(s, s[i].0));
}

/// Replacing the value of entry `i` replaces the value under its key.
proof fn lemma_map_update(s: JsonEntries, i: int, v: Seq<char>)
    requires
        keys_unique(s),
        0 <= i < s.len(),
    ensures
        keys_unique(s.update(i, (s[i].0, v))),
        entries_map(s.update(i, (s[i].0, v))) == entries_map(s).insert(s[i].0, v),
{
    let t = s.update(i, (s[i].0, v));
    assert forall|a: int, b: int|
        0 <= a < t.len() && 0 <= b < t.len() && #[trigger] t[a].0 == #[trigger] t[b].0 implies a == b by {
        assert(s[a].0 == t[a].0 && s[b].0 == t[b].0);
    }
    assert forall|k: Seq<char>| has_key(t, k) == (k == s[i].0 || has_key(s, k)) by {
        if has_key(s, k) {
            let j = choose|j: int| 0 <= j < s.len() && #[trigger] s[j].0 == k;
            assert(t[j].0 == k);
        }
        if has_key(t, k) {
            let j = choose|j: int| 0 <= j < t.len() && #[trigger] t[j].0 == k;
            assert(s[j].0 == k);
        }
        if k == s[i].0 {
            assert(t[i].0 == k);
        }
    }
    assert forall|k: Seq<char>| #[trigger] entries_map(t).contains_key(k)
        implies entries_map(t)[k] == entries_map(s).insert(s[i].0, v)[k] by {
        let j = choose|j: int| 0 <= j < t.len() && #[trigger] t[j].0 == k;
        lemma_entry_in_map(t, j);
        if j != i {
            lemma_entry_in_map(s, j);
        }
    }
    assert(entries_map(t) =~= entries_map(s).insert(s[i].0, v));
}

/// Placing an entry with a new key at index `i` adds that key.
proof fn lemma_map_insert_new(s: JsonEntries, i: int, k: Seq<char>, v: Seq<char>)
    requires
        keys_unique(s),
        keys_unique(s.insert(i, (k, v))),
        0 <= i <= s.len(),
        !has_key(s, k),
    ensures
        entries_map(s.insert(i, (k, v))) == entries_map(s).insert(k, v),
{
    let t = s.insert(i, (k, v));
    assert forall|q: Seq<char>| has_key(t, q) == (q == k || has_key(s, q)) by {
        if has_key(s, q) {
            let j = choose|j: int| 0 <= j < s.len() && #[trigger] s[j].0 == q;
            if j < i {
                assert(t[j].0 == q);
            } else {
                assert(t[j + 1].0 == q);
            }
        }
        if has_key(t, q) {
            let j = choose|j: int| 0 <= j < t.len() && #[trigger] t[j].0 == q;
            if j < i {
                assert(s[j].0 == q);
            } else if j > i {
                assert(s[j - 1].0 == q);
            }
        }
        if q == k {
            assert(t[i].0 == q);
        }
    }
    assert forall|q: Seq<char>| #[trigger] entries_map(t).contains_key(q)
        implies entries_map(t)[q] == entries_map(s).insert(k, v)[q] by {
        let j = choose|j: int| 0 <= j < t.len() && #[trigger] t[j].0 == q;
        lemma_entry_in_map(t, j);
        if j < i {
            assert(s[j] == t[j]);
            lemma_entry_in_map(s, j);
        } else if j > i {
            assert(s[j - 1] == t[j]);
            lemma_entry_in_map(s, j - 1);
        }
    }
    assert(entries_map(t) =~= entries_map(s).insert(k, v));
}

} // verus!
