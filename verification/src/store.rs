use vstd::prelude::*;
use vstd::string::*;
use crate::json::{
    all_strings, json_from_str, json_map_new, json_map_insert_str, json_obj_to_string,
    json_str_fields_vec, map_str_entries, parsed_json, str_fields,
};

verus! {

// ---------------------------------------------------------------------------
// Specification model of header text: splitting, trimming, and the mapping
// that merging a `key=value; key2=value2` header produces.
// ---------------------------------------------------------------------------

/// Whitespace stripped from the ends of a header segment.
pub open spec fn is_space(c: char) -> bool {
    c == ' ' || c == '\t' || c == '\n' || c == '\r'
}

/// Index of the first occurrence of `c` in `s`, or -1 if absent.
pub open spec fn find_char(s: Seq<char>, c: char) -> int
    decreases s.len(),
{
    if s.len() == 0 {
        -1
    } else if s[0] == c {
        0
    } else {
        let r = find_char(s.drop_first(), c);
        if r < 0 {
            -1
        } else {
            r + 1
        }
    }
}

pub open spec fn trim_start(s: Seq<char>) -> Seq<char>
    decreases s.len(),
{
    if s.len() > 0 && is_space(s[0]) {
        trim_start(s.drop_first())
    } else {
        s
    }
}

pub open spec fn trim_end(s: Seq<char>) -> Seq<char>
    decreases s.len(),
{
    if s.len() > 0 && is_space(s.last()) {
        trim_end(s.drop_last())
    } else {
        s
    }
}

pub open spec fn trim(s: Seq<char>) -> Seq<char> {
    trim_end(trim_start(s))
}

/// The key/value pair a single header segment contributes: the segment is
/// trimmed and split at its first `=`; it counts only if both parts are
/// non-empty.
pub open spec fn parse_segment(seg: Seq<char>) -> Option<(Seq<char>, Seq<char>)> {
    let t = trim(seg);
    let i = find_char(t, '=');
    if 1 <= i && i + 1 < t.len() {
        Some((t.take(i), t.skip(i + 1)))
    } else {
        None
    }
}

/// `s` split on every occurrence of `c` (separators removed).
pub open spec fn split_on(s: Seq<char>, c: char) -> Seq<Seq<char>>
    decreases s.len(),
{
    let i = find_char(s, c);
    if 0 <= i < s.len() {
        seq![s.take(i)] + split_on(s.skip(i + 1), c)
    } else {
        seq![s]
    }
}

pub open spec fn merge_step(
    m: Map<Seq<char>, Seq<char>>,
    seg: Seq<char>,
) -> Map<Seq<char>, Seq<char>> {
    match parse_segment(seg) {
        Some(kv) => m.insert(kv.0, kv.1),
        None => m,
    }
}

pub open spec fn merge_entries(
    m: Map<Seq<char>, Seq<char>>,
    segs: Seq<Seq<char>>,
) -> Map<Seq<char>, Seq<char>>
    decreases segs.len(),
{
    if segs.len() == 0 {
        m
    } else {
        merge_entries(merge_step(m, segs[0]), segs.drop_first())
    }
}

/// The mapping obtained by merging header `text` into mapping `m`:
/// well-formed segments are inserted left to right, malformed ones are
/// skipped.
pub open spec fn merge_header(
    m: Map<Seq<char>, Seq<char>>,
    text: Seq<char>,
) -> Map<Seq<char>, Seq<char>> {
    merge_entries(m, split_on(text, ';'))
}

// ---------------------------------------------------------------------------
// The store itself: a mapping from keys to values held as a vector of
// entries with pairwise-distinct keys.
// ---------------------------------------------------------------------------

/// A key that a serialized header reproduces exactly: non-empty, no
/// separator or `=` inside, and no leading whitespace for the trim to eat.
pub open spec fn safe_key(k: Seq<char>) -> bool {
    &&& k.len() > 0
    &&& !is_space(k[0])
    &&& forall|j: int| 0 <= j < k.len() ==> #[trigger] k[j] != '=' && k[j] != ';'
}

/// A value that a serialized header reproduces exactly: non-empty, no
/// separator inside, and no trailing whitespace for the trim to eat.
pub open spec fn safe_value(v: Seq<char>) -> bool {
    &&& v.len() > 0
    &&& !is_space(v.last())
    &&& forall|j: int| 0 <= j < v.len() ==> #[trigger] v[j] != ';'
}

pub open spec fn safe_entries(s: Seq<(String, String)>) -> bool {
    forall|i: int|
        0 <= i < s.len() ==> safe_key(#[trigger] s[i].0@) && safe_value(s[i].1@)
}

/// The text one entry contributes to a serialized header.
pub open spec fn pair_text(e: (String, String)) -> Seq<char> {
    e.0@ + seq!['='] + e.1@
}

/// The serialized header: entries rendered `key=value`, joined by `; `.
pub open spec fn header_of(s: Seq<(String, String)>) -> Seq<char>
    decreases s.len(),
{
    if s.len() == 0 {
        Seq::empty()
    } else if s.len() == 1 {
        pair_text(s[0])
    } else {
        pair_text(s[0]) + seq![';', ' '] + header_of(s.drop_first())
    }
}

/// The mapping obtained by inserting each pair in order.
pub open spec fn insert_all(
    m: Map<Seq<char>, Seq<char>>,
    s: Seq<(String, String)>,
) -> Map<Seq<char>, Seq<char>>
    decreases s.len(),
{
    if s.len() == 0 {
        m
    } else {
        insert_all(m.insert(s[0].0@, s[0].1@), s.drop_first())
    }
}

pub open spec fn unique_keys(s: Seq<(String, String)>) -> bool {
    forall|i: int, j: int|
        0 <= i < j < s.len() ==> #[trigger] s[i].0@ != #[trigger] s[j].0@
}

/// The mapping that an entry sequence denotes (later entries override
/// earlier ones; with unique keys nothing is overridden).
pub open spec fn map_of(s: Seq<(String, String)>) -> Map<Seq<char>, Seq<char>>
    decreases s.len(),
{
    if s.len() == 0 {
        Map::empty()
    } else {
        map_of(s.drop_last()).insert(s.last().0@, s.last().1@)
    }
}

/// Durable key/value mapping of text strings: the in-memory copy is the
/// single source of truth, mirrored to disk by the caller through
/// `save_content` / `load_from_content`.
pub struct KeyValueStore {
    entries: Vec<(String, String)>,
}

impl View for KeyValueStore {
    type V = Map<Seq<char>, Seq<char>>;

    closed spec fn view(&self) -> Map<Seq<char>, Seq<char>> {
        map_of(self.entries@)
    }
}

proof fn lemma_map_of_contains(s: Seq<(String, String)>, k: Seq<char>)
    ensures
        map_of(s).contains_key(k) <==> (exists|i: int| 0 <= i < s.len() && #[trigger] s[i].0@ == k),
    decreases s.len(),
{
    if s.len() > 0 {
        lemma_map_of_contains(s.drop_last(), k);
        if map_of(s).contains_key(k) && s.last().0@ != k {
            let i = choose|i: int| 0 <= i < s.drop_last().len() && #[trigger] s.drop_last()[i].0@ == k;
            assert(s[i].0@ == k);
        }
        if exists|i: int| 0 <= i < s.len() && #[trigger] s[i].0@ == k {
            let i = choose|i: int| 0 <= i < s.len() && #[trigger] s[i].0@ == k;
            if i < s.len() - 1 {
                assert(s.drop_last()[i].0@ == k);
            }
        }
    }
}

proof fn lemma_map_of_update_value(s: Seq<(String, String)>, i: int, v: String)
    requires
        unique_keys(s),
        0 <= i < s.len(),
    ensures
        map_of(s.update(i, (s[i].0, v))) == map_of(s).insert(s[i].0@, v@),
    decreases s.len(),
{
    let u = s.update(i, (s[i].0, v));
    if i == s.len() - 1 {
        assert(u.drop_last() =~= s.drop_last());
        assert(map_of(s).insert(s[i].0@, v@) =~= map_of(s.drop_last()).insert(s[i].0@, v@));
    } else {
        assert(u.drop_last() =~= s.drop_last().update(i, (s[i].0, v)));
        assert(s.drop_last()[i] == s[i]);
        assert forall|x: int, y: int|
            0 <= x < y < s.drop_last().len() implies #[trigger] s.drop_last()[x].0@
            != #[trigger] s.drop_last()[y].0@ by {
            assert(s.drop_last()[x] == s[x]);
            assert(s.drop_last()[y] == s[y]);
            assert(s[x].0@ != s[y].0@);
        }
        lemma_map_of_update_value(s.drop_last(), i, v);
        assert(s[i].0@ != s.last().0@);
        assert(map_of(s.drop_last()).insert(s[i].0@, v@).insert(s.last().0@, s.last().1@)
            =~= map_of(s.drop_last()).insert(s.last().0@, s.last().1@).insert(s[i].0@, v@));
        assert(u.last() == s.last());
    }
}

proof fn lemma_find_char_at(s: Seq<char>, c: char, i: int)
    requires
        0 <= i < s.len(),
        s[i] == c,
        forall|j: int| 0 <= j < i ==> #[trigger] s[j] != c,
    ensures
        find_char(s, c) == i,
    decreases i,
{
    if i > 0 {
        lemma_find_char_at(s.drop_first(), c, i - 1);
    }
}

proof fn lemma_find_char_none(s: Seq<char>, c: char)
    requires
        forall|j: int| 0 <= j < s.len() ==> #[trigger] s[j] != c,
    ensures
        find_char(s, c) == -1,
    decreases s.len(),
{
    if s.len() > 0 {
        lemma_find_char_none(s.drop_first(), c);
    }
}

proof fn lemma_trim_start_skip(s: Seq<char>, a: int)
    requires
        0 <= a <= s.len(),
        forall|j: int| 0 <= j < a ==> is_space(#[trigger] s[j]),
        a == s.len() || !is_space(s[a]),
    ensures
        trim_start(s) == s.skip(a),
    decreases a,
{
    if a == 0 {
        assert(s.skip(0) =~= s);
    } else {
        lemma_trim_start_skip(s.drop_first(), a - 1);
        assert(s.drop_first().skip(a - 1) =~= s.skip(a));
    }
}

proof fn lemma_trim_end_take(s: Seq<char>, b: int)
    requires
        0 <= b <= s.len(),
        forall|j: int| b <= j < s.len() ==> is_space(#[trigger] s[j]),
        b == 0 || !is_space(s[b - 1]),
    ensures
        trim_end(s) == s.take(b),
    decreases s.len() - b,
{
    if b == s.len() {
        assert(s.take(b) =~= s);
    } else {
        assert(is_space(s.last()));
        lemma_trim_end_take(s.drop_last(), b);
        assert(s.drop_last().take(b) =~= s.take(b));
    }
}

fn is_space_char(c: char) -> (r: bool)
    ensures
        r == is_space(c),
{
    c == ' ' || c == '\t' || c == '\n' || c == '\r'
}

/// First occurrence of `c` in `s`, scanning by character.
fn scan_char(s: &str, c: char) -> (r: Option<usize>)
    ensures
        match r {
            Some(i) => {
                &&& i < s@.len()
                &&& s@[i as int] == c
                &&& find_char(s@, c) == i as int
                &&& forall|j: int| 0 <= j < i ==> #[trigger] s@[j] != c
            },
            None => {
                &&& find_char(s@, c) == -1
                &&& forall|j: int| 0 <= j < s@.len() ==> #[trigger] s@[j] != c
            },
        },
{
    let n = s.unicode_len();
    let mut i: usize = 0;
    while i < n
        invariant
            n == s@.len(),
            i <= n,
            forall|j: int| 0 <= j < i ==> #[trigger] s@[j] != c,
        decreases n - i,
    {
        if s.get_char(i) == c {
            proof {
                lemma_find_char_at(s@, c, i as int);
            }
            return Some(i);
        }
        i = i + 1;
    }
    proof {
        lemma_find_char_none(s@, c);
    }
    None
}

/// The mapping that loading a file's content yields: a missing or
/// unparseable file yields the empty mapping, a parsed one yields its
/// string-valued fields (other fields are tolerated and ignored).
pub open spec fn load_spec(content: Option<Seq<char>>) -> Map<Seq<char>, Seq<char>> {
    match content {
        None => Map::empty(),
        Some(s) => match parsed_json(s) {
            Some(v) => str_fields(v),
            None => Map::empty(),
        },
    }
}

proof fn lemma_map_of_value(s: Seq<(String, String)>, k: Seq<char>)
    requires
        map_of(s).contains_key(k),
    ensures
        exists|i: int| 0 <= i < s.len() && #[trigger] s[i].0@ == k && s[i].1@ == map_of(s)[k],
    decreases s.len(),
{
    if s.len() > 0 {
        if s.last().0@ == k {
            assert(s[s.len() - 1].0@ == k && s[s.len() - 1].1@ == map_of(s)[k]);
        } else {
            lemma_map_of_value(s.drop_last(), k);
            let i = choose|i: int|
                0 <= i < s.drop_last().len() && #[trigger] s.drop_last()[i].0@ == k
                    && s.drop_last()[i].1@ == map_of(s.drop_last())[k];
            assert(s[i].0@ == k && s[i].1@ == map_of(s)[k]);
        }
    }
}

proof fn lemma_map_of_matches(s: Seq<(String, String)>, m: Map<Seq<char>, Seq<char>>)
    requires
        forall|i: int|
            0 <= i < s.len() ==> m.contains_key(#[trigger] s[i].0@) && m[s[i].0@] == s[i].1@,
        forall|k: Seq<char>| #[trigger] m.contains_key(k) ==> exists|i: int|
            0 <= i < s.len() && #[trigger] s[i].0@ == k,
    ensures
        map_of(s) == m,
{
    assert forall|k: Seq<char>| map_of(s).contains_key(k) implies m.contains_key(k) by {
        lemma_map_of_contains(s, k);
        let i = choose|i: int| 0 <= i < s.len() && #[trigger] s[i].0@ == k;
        assert(m.contains_key(s[i].0@));
    }
    assert forall|k: Seq<char>| m.contains_key(k) implies map_of(s).contains_key(k) by {
        lemma_map_of_contains(s, k);
    }
    assert forall|k: Seq<char>| map_of(s).contains_key(k) implies map_of(s)[k] == m[k] by {
        lemma_map_of_value(s, k);
        let i = choose|i: int|
            0 <= i < s.len() && #[trigger] s[i].0@ == k && s[i].1@ == map_of(s)[k];
        assert(m[s[i].0@] == s[i].1@);
    }
    assert(map_of(s) =~= m);
}

proof fn lemma_map_of_index(s: Seq<(String, String)>, i: int)
    requires
        unique_keys(s),
        0 <= i < s.len(),
    ensures
        map_of(s).contains_key(s[i].0@),
        map_of(s)[s[i].0@] == s[i].1@,
    decreases s.len(),
{
    if i == s.len() - 1 {
    } else {
        assert(s.drop_last()[i] == s[i]);
        assert forall|x: int, y: int|
            0 <= x < y < s.drop_last().len() implies #[trigger] s.drop_last()[x].0@
            != #[trigger] s.drop_last()[y].0@ by {
            assert(s.drop_last()[x] == s[x]);
            assert(s.drop_last()[y] == s[y]);
            assert(s[x].0@ != s[y].0@);
        }
        lemma_map_of_index(s.drop_last(), i);
        assert(s[i].0@ != s.last().0@);
    }
}

proof fn lemma_map_of_len(s: Seq<(String, String)>)
    requires
        unique_keys(s),
    ensures
        map_of(s).len() == s.len(),
        map_of(s).dom().finite(),
    decreases s.len(),
{
    if s.len() > 0 {
        assert forall|x: int, y: int|
            0 <= x < y < s.drop_last().len() implies #[trigger] s.drop_last()[x].0@
            != #[trigger] s.drop_last()[y].0@ by {
            assert(s.drop_last()[x] == s[x]);
            assert(s.drop_last()[y] == s[y]);
            assert(s[x].0@ != s[y].0@);
        }
        lemma_map_of_len(s.drop_last());
        lemma_map_of_contains(s.drop_last(), s.last().0@);
        assert(forall|j: int|
            0 <= j < s.drop_last().len() ==> #[trigger] s.drop_last()[j].0@ != s.last().0@);
        assert(!map_of(s.drop_last()).contains_key(s.last().0@));
        assert(map_of(s).dom() =~= map_of(s.drop_last()).dom().insert(s.last().0@));
        vstd::set::axiom_set_insert_len(map_of(s.drop_last()).dom(), s.last().0@);
    }
}

proof fn lemma_push_entry(pre: Seq<(String, String)>, key: String, value: String)
    requires
        forall|j: int| 0 <= j < pre.len() ==> #[trigger] pre[j].0@ != key@,
        unique_keys(pre),
    ensures
        unique_keys(pre.push((key, value))),
        safe_entries(pre) && safe_key(key@) && safe_value(value@) ==> safe_entries(
            pre.push((key, value)),
        ),
{
    let post = pre.push((key, value));
    assert(forall|j: int| 0 <= j < pre.len() ==> #[trigger] post[j] == pre[j]);
    assert(post[post.len() - 1] == (key, value));
    assert forall|j: int, l: int|
        0 <= j < l < post.len() implies #[trigger] post[j].0@ != #[trigger] post[l].0@ by {
        assert(post[j] == pre[j]);
        assert(post[j].0@ == pre[j].0@);
        if l < post.len() - 1 {
            assert(post[l] == pre[l]);
            assert(post[l].0@ == pre[l].0@);
            assert(pre[j].0@ != pre[l].0@);
        } else {
            assert(post[l].0@ == key@);
            assert(pre[j].0@ != key@);
        }
    }
    if safe_entries(pre) && safe_key(key@) && safe_value(value@) {
        assert forall|j: int|
            0 <= j < post.len() implies safe_key(#[trigger] post[j].0@) && safe_value(
            post[j].1@,
        ) by {
            if j < post.len() - 1 {
                assert(post[j] == pre[j]);
                assert(post[j].0@ == pre[j].0@);
                assert(post[j].1@ == pre[j].1@);
                assert(safe_key(pre[j].0@) && safe_value(pre[j].1@));
            } else {
                assert(post[j].0@ == key@);
                assert(post[j].1@ == value@);
            }
        }
    }
}

proof fn lemma_update_entry(pre: Seq<(String, String)>, i: int, value: String)
    requires
        unique_keys(pre),
        0 <= i < pre.len(),
    ensures
        unique_keys(pre.update(i, (pre[i].0, value))),
        safe_entries(pre) && safe_value(value@) ==> safe_entries(
            pre.update(i, (pre[i].0, value)),
        ),
{
    let post = pre.update(i, (pre[i].0, value));
    assert(forall|j: int| 0 <= j < post.len() ==> #[trigger] post[j].0@ == pre[j].0@);
    assert forall|j: int, l: int|
        0 <= j < l < post.len() implies #[trigger] post[j].0@ != #[trigger] post[l].0@ by {
        assert(pre[j].0@ != pre[l].0@);
    }
    if safe_entries(pre) && safe_value(value@) {
        assert forall|j: int|
            0 <= j < post.len() implies safe_key(#[trigger] post[j].0@) && safe_value(
            post[j].1@,
        ) by {
            assert(safe_key(pre[j].0@) && safe_value(pre[j].1@));
            if j != i {
                assert(post[j] == pre[j]);
                assert(post[j].1@ == pre[j].1@);
            } else {
                assert(post[j].1@ == value@);
            }
        }
    }
}

impl KeyValueStore {
    /// The store's entries have pairwise-distinct keys.
    pub closed spec fn wf(&self) -> bool {
        unique_keys(self.entries@)
    }

    /// The store's entries in insertion order.
    pub closed spec fn entries_seq(&self) -> Seq<(String, String)> {
        self.entries@
    }

    /// Every entry survives a serialize/re-parse round trip.
    pub open spec fn header_safe(&self) -> bool {
        safe_entries(self.entries_seq())
    }

    /// An empty store.
    pub fn new() -> (r: Self)
        ensures
            r@ == Map::<Seq<char>, Seq<char>>::empty(),
            r.wf(),
            r.header_safe(),
    {
        KeyValueStore { entries: Vec::new() }
    }

    /// Inserts `value` under `key`, overwriting any previous value.
    pub fn insert(&mut self, key: String, value: String)
        requires
            old(self).wf(),
        ensures
            final(self).wf(),
            final(self)@ == old(self)@.insert(key@, value@),
            old(self).header_safe() && safe_key(key@) && safe_value(value@)
                ==> final(self).header_safe(),
    {
        let n = self.entries.len();
        let mut i: usize = 0;
        while i < n
            invariant
                n == self.entries.len(),
                i <= n,
                self.entries@ == old(self).entries@,
                unique_keys(self.entries@),
                forall|j: int| 0 <= j < i ==> #[trigger] self.entries@[j].0@ != key@,
            decreases n - i,
        {
            if self.entries[i].0 == key {
                let ghost pre = self.entries@;
                proof {
                    lemma_map_of_update_value(pre, i as int, value);
                    lemma_update_entry(pre, i as int, value);
                }
                self.entries[i].1 = value;
                proof {
                    let post = self.entries@;
                    assert(post =~= pre.update(i as int, (pre[i as int].0, value)));
                    assert(map_of(pre).insert(pre[i as int].0@, value@) =~= map_of(pre).insert(
                        key@,
                        value@,
                    ));
                }
                return ;
            }
            i = i + 1;
        }
        proof {
            lemma_push_entry(self.entries@, key, value);
        }
        self.entries.push((key, value));
        proof {
            let post = self.entries@;
            let pre = old(self).entries@;
            assert(post =~= pre.push((key, value)));
            assert(post.drop_last() =~= pre);
            assert(post.last() == (key, value));
        }
    }

    /// The value stored under `key`, if any.
    pub fn get(&self, key: &str) -> (r: Option<&String>)
        requires
            self.wf(),
        ensures
            match r {
                Some(v) => self@.contains_key(key@) && self@[key@] == v@,
                None => !self@.contains_key(key@),
            },
    {
        let key_owned = key.to_owned();
        let n = self.entries.len();
        let mut i: usize = 0;
        while i < n
            invariant
                n == self.entries.len(),
                self.wf(),
                i <= n,
                key_owned@ == key@,
                forall|j: int| 0 <= j < i ==> #[trigger] self.entries@[j].0@ != key@,
            decreases n - i,
        {
            if self.entries[i].0 == key_owned {
                proof {
                    lemma_map_of_index(self.entries@, i as int);
                }
                return Some(&self.entries[i].1);
            }
            i = i + 1;
        }
        proof {
            lemma_map_of_contains(self.entries@, key@);
        }
        None
    }

    /// The number of entries.
    pub fn len(&self) -> (r: usize)
        requires
            self.wf(),
        ensures
            r == self@.len(),
    {
        proof {
            lemma_map_of_len(self.entries@);
        }
        self.entries.len()
    }

    /// Applies one header segment: trims it, splits it at its first `=`,
    /// and inserts the pair if both parts are non-empty.
    fn apply_segment(&mut self, seg: &str)
        requires
            old(self).wf(),
        ensures
            final(self).wf(),
            final(self)@ == merge_step(old(self)@, seg@),
            old(self).header_safe() && (forall|j: int|
                0 <= j < seg@.len() ==> #[trigger] seg@[j] != ';') ==> final(self).header_safe(),
    {
        let n = seg.unicode_len();
        let mut a: usize = 0;
        while a < n && is_space_char(seg.get_char(a))
            invariant
                n == seg@.len(),
                a <= n,
                forall|j: int| 0 <= j < a ==> is_space(#[trigger] seg@[j]),
            decreases n - a,
        {
            a = a + 1;
        }
        let mut b: usize = n;
        while b > a && is_space_char(seg.get_char(b - 1))
            invariant
                n == seg@.len(),
                a <= b <= n,
                forall|j: int| b <= j < n ==> is_space(#[trigger] seg@[j]),
            decreases b,
        {
            b = b - 1;
        }
        let t = seg.substring_char(a, b);
        proof {
            lemma_trim_start_skip(seg@, a as int);
            lemma_trim_end_take(seg@.skip(a as int), b - a);
            assert(seg@.skip(a as int).take(b - a) =~= t@);
            assert(trim(seg@) == t@);
        }
        let tn = t.unicode_len();
        match scan_char(t, '=') {
            Some(i) => {
                if 1 <= i && i + 1 < tn {
                    let key_part = t.substring_char(0, i);
                    let value_part = t.substring_char(i + 1, tn);
                    proof {
                        assert(t@.take(i as int) =~= key_part@);
                        assert(t@.skip(i as int + 1) =~= value_part@);
                        assert(parse_segment(seg@) == Some((key_part@, value_part@)));
                        if forall|j: int| 0 <= j < seg@.len() ==> #[trigger] seg@[j] != ';' {
                            assert(forall|j: int|
                                0 <= j < t@.len() ==> #[trigger] t@[j] == seg@[j + a]);
                            assert(!is_space(t@[0]));
                            assert(!is_space(t@[t@.len() - 1]));
                            assert(safe_key(key_part@));
                            assert(value_part@.last() == t@[t@.len() - 1]);
                            assert(safe_value(value_part@));
                        }
                    }
                    self.insert(key_part.to_owned(), value_part.to_owned());
                } else {
                    proof {
                        assert(parse_segment(seg@) is None);
                    }
                }
            },
            None => {
                proof {
                    assert(parse_segment(seg@) is None);
                }
            },
        }
    }

    /// Splits `text` on `;`, trims each segment, splits each at its first
    /// `=`, and inserts every segment that yields two non-empty parts;
    /// malformed segments are silently skipped. The caller persists the
    /// store afterwards with `save_content`.
    pub fn merge_from_header(&mut self, text: &str)
        requires
            old(self).wf(),
        ensures
            final(self).wf(),
            final(self)@ == merge_header(old(self)@, text@),
            old(self).header_safe() ==> final(self).header_safe(),
    {
        let ghost orig: Map<Seq<char>, Seq<char>> = old(self)@;
        let ghost goal: Map<Seq<char>, Seq<char>> = merge_header(old(self)@, text@);
        let mut rest: &str = text;
        loop
            invariant
                self.wf(),
                goal == merge_header(old(self)@, text@),
                merge_entries(self@, split_on(rest@, ';')) == goal,
                old(self).header_safe() ==> self.header_safe(),
            decreases rest@.len(),
        {
            match scan_char(rest, ';') {
                Some(i) => {
                    let seg = rest.substring_char(0, i);
                    let n = rest.unicode_len();
                    let next = rest.substring_char(i + 1, n);
                    proof {
                        assert(rest@.take(i as int) =~= seg@);
                        assert(rest@.skip(i as int + 1) =~= next@);
                        assert(split_on(rest@, ';') == seq![seg@] + split_on(next@, ';'));
                        assert((seq![seg@] + split_on(next@, ';'))[0] == seg@);
                        assert((seq![seg@] + split_on(next@, ';')).drop_first() =~= split_on(
                            next@,
                            ';',
                        ));
                    }
                    self.apply_segment(seg);
                    rest = next;
                },
                None => {
                    let ghost prev: Map<Seq<char>, Seq<char>> = self@;
                    proof {
                        let m2 = merge_step(prev, rest@);
                        assert(split_on(rest@, ';') == seq![rest@]);
                        assert(seq![rest@][0] == rest@);
                        assert(seq![rest@].drop_first() =~= Seq::<Seq<char>>::empty());
                        assert(merge_entries(m2, Seq::<Seq<char>>::empty()) == m2);
                        assert(merge_entries(prev, seq![rest@]) == merge_entries(
                            m2,
                            seq![rest@].drop_first(),
                        ));
                        assert(merge_entries(prev, seq![rest@]) == m2);
                    }
                    self.apply_segment(rest);
                    proof {
                        assert(self@ == merge_step(prev, rest@));
                        assert(self@ == goal);
                    }
                    return ;
                },
            }
        }
    }

    /// Renders all entries as `key=value` joined by `; `, in entry order.
    /// When every entry is header-safe, re-parsing the result from an empty
    /// mapping reproduces exactly this store's mapping.
    pub fn serialize_header(&self) -> (r: String)
        ensures
            r@ == header_of(self.entries_seq()),
            self.header_safe() ==> merge_header(Map::<Seq<char>, Seq<char>>::empty(), r@)
                == self@,
    {
        let mut out = String::new();
        let n = self.entries.len();
        let mut i: usize = 0;
        while i < n
            invariant
                n == self.entries.len(),
                i <= n,
                out@ == header_of(self.entries@.take(i as int)),
            decreases n - i,
        {
            proof {
                reveal_strlit("; ");
                reveal_strlit("=");
                assert(("; ")@ =~= seq![';', ' ']);
                assert(("=")@ =~= seq!['=']);
            }
            if i > 0 {
                out.append("; ");
            }
            out.append(self.entries[i].0.as_str());
            out.append("=");
            out.append(self.entries[i].1.as_str());
            proof {
                let taken = self.entries@.take(i as int);
                let e = self.entries@[i as int];
                lemma_header_of_push(taken, e);
                assert(taken.push(e) =~= self.entries@.take(i as int + 1));
                if i > 0 {
                    assert(out@ =~= header_of(taken) + seq![';', ' '] + pair_text(e));
                } else {
                    assert(taken.len() == 0);
                    assert(out@ =~= pair_text(e));
                }
            }
            i = i + 1;
        }
        proof {
            assert(self.entries@.take(n as int) =~= self.entries@);
            if self.header_safe() {
                lemma_serialize_reparse(self.entries@);
            }
        }
        out
    }

    /// Renders the store as its on-disk text: one JSON object mapping keys
    /// to values. Loading the result reproduces exactly this store's
    /// mapping; the caller writes the text to the store file.
    pub fn save_content(&self) -> (r: String)
        ensures
            load_spec(Some(r@)) == self@,
    {
        let mut m = json_map_new();
        let n = self.entries.len();
        let mut i: usize = 0;
        while i < n
            invariant
                n == self.entries.len(),
                i <= n,
                all_strings(m),
                map_str_entries(m) == map_of(self.entries@.take(i as int)),
            decreases n - i,
        {
            json_map_insert_str(&mut m, self.entries[i].0.as_str(), self.entries[i].1.as_str());
            proof {
                let t1 = self.entries@.take(i as int + 1);
                assert(t1.drop_last() =~= self.entries@.take(i as int));
                assert(t1.last() == self.entries@[i as int]);
            }
            i = i + 1;
        }
        proof {
            assert(self.entries@.take(n as int) =~= self.entries@);
        }
        json_obj_to_string(m)
    }

    /// Builds a store from the store file's content, or from `None` when the
    /// file is missing. Malformed content yields an empty store rather than
    /// an error: corruption never blocks startup.
    pub fn load_from_content(content: Option<&str>) -> (r: Self)
        ensures
            r.wf(),
            content is None ==> r@ == Map::<Seq<char>, Seq<char>>::empty(),
            content matches Some(s) ==> r@ == load_spec(Some(s@)),
    {
        match content {
            None => Self::new(),
            Some(s) => match json_from_str(s) {
                None => Self::new(),
                Some(v) => {
                    let pairs = json_str_fields_vec(&v);
                    let mut st = Self::new();
                    let n = pairs.len();
                    let mut i: usize = 0;
                    while i < n
                        invariant
                            n == pairs.len(),
                            i <= n,
                            st.wf(),
                            st@ == insert_all(
                                Map::<Seq<char>, Seq<char>>::empty(),
                                pairs@.take(i as int),
                            ),
                        decreases n - i,
                    {
                        proof {
                            lemma_insert_all_push(
                                Map::<Seq<char>, Seq<char>>::empty(),
                                pairs@.take(i as int),
                                pairs@[i as int],
                            );
                            assert(pairs@.take(i as int).push(pairs@[i as int]) =~= pairs@.take(
                                i as int + 1,
                            ));
                        }
                        st.insert(pairs[i].0.clone(), pairs[i].1.clone());
                        i = i + 1;
                    }
                    proof {
                        assert(pairs@.take(n as int) =~= pairs@);
                        lemma_insert_all_empty_map_of(pairs@);
                        lemma_map_of_matches(pairs@, str_fields(v));
                    }
                    st
                },
            },
        }
    }
}

proof fn lemma_header_of_push(s: Seq<(String, String)>, e: (String, String))
    ensures
        header_of(s.push(e)) == if s.len() == 0 {
            pair_text(e)
        } else {
            header_of(s) + seq![';', ' '] + pair_text(e)
        },
    decreases s.len(),
{
    let p = s.push(e);
    assert(p[0] == if s.len() == 0 { e } else { s[0] });
    if s.len() == 0 {
        assert(p.len() == 1);
    } else if s.len() == 1 {
        assert(p.drop_first() =~= seq![e]);
        assert(header_of(seq![e]) == pair_text(e));
    } else {
        assert(p.drop_first() =~= s.drop_first().push(e));
        lemma_header_of_push(s.drop_first(), e);
        assert(pair_text(s[0]) + seq![';', ' '] + (header_of(s.drop_first()) + seq![';', ' ']
            + pair_text(e)) =~= (pair_text(s[0]) + seq![';', ' '] + header_of(s.drop_first()))
            + seq![';', ' '] + pair_text(e));
    }
}

proof fn lemma_insert_all_push(
    m: Map<Seq<char>, Seq<char>>,
    s: Seq<(String, String)>,
    e: (String, String),
)
    ensures
        insert_all(m, s.push(e)) == insert_all(m, s).insert(e.0@, e.1@),
    decreases s.len(),
{
    let p = s.push(e);
    assert(p[0] == if s.len() == 0 { e } else { s[0] });
    if s.len() == 0 {
        assert(p.drop_first() =~= Seq::<(String, String)>::empty());
        let m2 = m.insert(e.0@, e.1@);
        assert(insert_all(m2, Seq::<(String, String)>::empty()) == m2);
        assert(insert_all(m, s) == m);
    } else {
        assert(p.drop_first() =~= s.drop_first().push(e));
        lemma_insert_all_push(m.insert(s[0].0@, s[0].1@), s.drop_first(), e);
    }
}

proof fn lemma_insert_all_empty_map_of(s: Seq<(String, String)>)
    ensures
        insert_all(Map::<Seq<char>, Seq<char>>::empty(), s) == map_of(s),
    decreases s.len(),
{
    if s.len() > 0 {
        lemma_insert_all_empty_map_of(s.drop_last());
        lemma_insert_all_push(Map::<Seq<char>, Seq<char>>::empty(), s.drop_last(), s.last());
        assert(s.drop_last().push(s.last()) =~= s);
    }
}

proof fn lemma_parse_padded_pair(pre: Seq<char>, k: Seq<char>, v: Seq<char>)
    requires
        forall|j: int| 0 <= j < pre.len() ==> #[trigger] pre[j] == ' ',
        safe_key(k),
        safe_value(v),
    ensures
        parse_segment(pre + k + seq!['='] + v) == Some((k, v)),
{
    let s = pre + k + seq!['='] + v;
    let t = k + seq!['='] + v;
    assert(s.len() == pre.len() + t.len());
    assert forall|j: int| 0 <= j < pre.len() implies is_space(#[trigger] s[j]) by {
        assert(s[j] == pre[j]);
    }
    assert(s[pre.len() as int] == k[0]);
    lemma_trim_start_skip(s, pre.len() as int);
    assert(s.skip(pre.len() as int) =~= t);
    assert(t[t.len() - 1] == v.last());
    lemma_trim_end_take(t, t.len() as int);
    assert(t.take(t.len() as int) =~= t);
    assert(trim(s) == t);
    assert(t[k.len() as int] == '=');
    assert forall|j: int| 0 <= j < k.len() implies #[trigger] t[j] != '=' by {
        assert(t[j] == k[j]);
    }
    lemma_find_char_at(t, '=', k.len() as int);
    assert(t.take(k.len() as int) =~= k);
    assert(t.skip(k.len() as int + 1) =~= v);
}

proof fn lemma_reparse_padded(
    m: Map<Seq<char>, Seq<char>>,
    s: Seq<(String, String)>,
    pre: Seq<char>,
)
    requires
        safe_entries(s),
        forall|j: int| 0 <= j < pre.len() ==> #[trigger] pre[j] == ' ',
    ensures
        merge_entries(m, split_on(pre + header_of(s), ';')) == insert_all(m, s),
    decreases s.len(),
{
    let full = pre + header_of(s);
    if s.len() == 0 {
        assert(full =~= pre);
        assert(forall|j: int| 0 <= j < pre.len() ==> #[trigger] pre[j] != ';');
        lemma_find_char_none(pre, ';');
        assert(split_on(pre, ';') == seq![pre]);
        assert(seq![pre][0] == pre);
        assert(seq![pre].drop_first() =~= Seq::<Seq<char>>::empty());
        lemma_trim_start_skip(pre, pre.len() as int);
        assert(pre.skip(pre.len() as int) =~= Seq::<char>::empty());
        assert(trim(pre) =~= Seq::<char>::empty());
        assert(parse_segment(pre) is None);
        assert(merge_step(m, pre) == m);
        assert(merge_entries(m, seq![pre]) == merge_entries(m, seq![pre].drop_first()));
    } else {
        let k = s[0].0@;
        let v = s[0].1@;
        assert(safe_key(k) && safe_value(v));
        let seg0 = pre + k + seq!['='] + v;
        lemma_parse_padded_pair(pre, k, v);
        if s.len() == 1 {
            assert(full =~= seg0);
            assert forall|j: int| 0 <= j < seg0.len() implies #[trigger] seg0[j] != ';' by {
                if j < pre.len() {
                    assert(seg0[j] == pre[j]);
                } else if j < pre.len() + k.len() {
                    assert(seg0[j] == k[j - pre.len()]);
                } else if j == pre.len() + k.len() {
                    assert(seg0[j] == '=');
                } else {
                    assert(seg0[j] == v[j - (pre.len() + k.len() + 1)]);
                }
            }
            lemma_find_char_none(seg0, ';');
            assert(split_on(seg0, ';') == seq![seg0]);
            assert(seq![seg0][0] == seg0);
            assert(seq![seg0].drop_first() =~= Seq::<Seq<char>>::empty());
            let m2 = m.insert(k, v);
            assert(merge_step(m, seg0) == m2);
            assert(merge_entries(m2, Seq::<Seq<char>>::empty()) == m2);
            assert(merge_entries(m, seq![seg0]) == m2);
            assert(s.drop_first() =~= Seq::<(String, String)>::empty());
            assert(insert_all(m2, Seq::<(String, String)>::empty()) == m2);
            assert(insert_all(m, s) == m2);
        } else {
            let rest = s.drop_first();
            let tail = seq![' '] + header_of(rest);
            assert(header_of(s) == pair_text(s[0]) + seq![';', ' '] + header_of(rest));
            assert(full =~= seg0 + seq![';'] + tail);
            let idx = seg0.len() as int;
            assert(full[idx] == ';');
            assert forall|j: int| 0 <= j < idx implies #[trigger] full[j] != ';' by {
                assert(full[j] == seg0[j]);
                if j < pre.len() {
                    assert(seg0[j] == pre[j]);
                } else if j < pre.len() + k.len() {
                    assert(seg0[j] == k[j - pre.len()]);
                } else if j == pre.len() + k.len() {
                    assert(seg0[j] == '=');
                } else {
                    assert(seg0[j] == v[j - (pre.len() + k.len() + 1)]);
                }
            }
            lemma_find_char_at(full, ';', idx);
            assert(full.take(idx) =~= seg0);
            assert(full.skip(idx + 1) =~= tail);
            assert(split_on(full, ';') == seq![seg0] + split_on(tail, ';'));
            let segs = seq![seg0] + split_on(tail, ';');
            assert(segs[0] == seg0);
            assert(segs.drop_first() =~= split_on(tail, ';'));
            let m2 = m.insert(k, v);
            assert(merge_step(m, seg0) == m2);
            assert forall|i2: int| 0 <= i2 < rest.len() implies safe_key(#[trigger] rest[i2].0@)
                && safe_value(rest[i2].1@) by {
                assert(rest[i2] == s[i2 + 1]);
                assert(safe_key(s[i2 + 1].0@) && safe_value(s[i2 + 1].1@));
            }
            assert(forall|j: int| 0 <= j < seq![' '].len() ==> #[trigger] seq![' '][j] == ' ');
            lemma_reparse_padded(m2, rest, seq![' ']);
            assert(seq![' '] + header_of(rest) =~= tail);
            assert(merge_entries(m, segs) == merge_entries(m2, split_on(tail, ';')));
            assert(insert_all(m, s) == insert_all(m2, rest));
        }
    }
}

/// Law: serializing entries whose keys and values are header-safe and
/// re-parsing the result from an empty mapping yields exactly the mapping
/// the entries denote — merging the serialized header equals inserting each
/// pair individually.
pub proof fn lemma_serialize_reparse(s: Seq<(String, String)>)
    requires
        safe_entries(s),
    ensures
        merge_header(Map::<Seq<char>, Seq<char>>::empty(), header_of(s)) == map_of(s),
{
    lemma_reparse_padded(Map::<Seq<char>, Seq<char>>::empty(), s, Seq::<char>::empty());
    assert(Seq::<char>::empty() + header_of(s) =~= header_of(s));
    lemma_insert_all_empty_map_of(s);
}

/// Law: a malformed segment — empty, lacking `=`, or with an empty key or
/// value — contributes no entry, and the remaining segments are processed
/// exactly as if it were absent.
pub proof fn lemma_malformed_segment_skipped(
    m: Map<Seq<char>, Seq<char>>,
    segs: Seq<Seq<char>>,
    i: int,
)
    requires
        0 <= i < segs.len(),
        parse_segment(segs[i]) is None,
    ensures
        merge_entries(m, segs) == merge_entries(m, segs.remove(i)),
    decreases segs.len(),
{
    if i == 0 {
        assert(merge_step(m, segs[0]) == m);
        assert(segs.remove(0) =~= segs.drop_first());
    } else {
        assert(segs.drop_first()[i - 1] == segs[i]);
        lemma_malformed_segment_skipped(merge_step(m, segs[0]), segs.drop_first(), i - 1);
        assert(segs.remove(i)[0] == segs[0]);
        assert(segs.remove(i).drop_first() =~= segs.drop_first().remove(i - 1));
    }
}

} // verus!
