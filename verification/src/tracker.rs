//! Tracking Store: the durable set of package names this tool is
//! responsible for.  The set is held sorted and duplicate-free so that the
//! persisted form is deterministic; persistence is a pure encoding to and
//! from the on-disk text (one name per line, sorted), so reading and
//! writing the file itself stays outside the library.

use vstd::prelude::*;

use crate::text;
use crate::text::{lex_lt, valid_name};

verus! {

/// The tracked-name set.  Always an optimistic superset hint, never ground
/// truth: callers must validate every name against the live database before
/// trusting it for a mutating operation.
pub struct PackageTracker {
    names: Vec<String>,
}

impl View for PackageTracker {
    type V = Set<Seq<char>>;

    open spec fn view(&self) -> Set<Seq<char>> {
        self.names_seq().to_set()
    }
}

/// The persisted form of a sorted name list: each name followed by a line
/// separator.
pub open spec fn encode_names(names: Seq<Seq<char>>) -> Seq<char>
    decreases names.len(),
{
    if names.len() == 0 {
        Seq::empty()
    } else {
        names[0] + seq!['\n'] + encode_names(names.skip(1))
    }
}

/// Position of the first line separator at or after `start`, or the end of
/// the text.
pub open spec fn line_end(s: Seq<char>, start: int) -> int
    decreases s.len() - start when 0 <= start
{
    if !(0 <= start < s.len()) {
        start
    } else if s[start] == '\n' {
        start
    } else {
        line_end(s, start + 1)
    }
}

pub proof fn lemma_line_end_bounds(s: Seq<char>, start: int)
    requires
        0 <= start <= s.len(),
    ensures
        start <= line_end(s, start) <= s.len(),
        line_end(s, start) < s.len() ==> s[line_end(s, start)] == '\n',
        forall|j: int| start <= j < line_end(s, start) ==> s[j] != '\n',
    decreases s.len() - start,
{
    if start < s.len() && s[start] != '\n' {
        lemma_line_end_bounds(s, start + 1);
    }
}

#[via_fn]
proof fn decode_from_decreases(s: Seq<char>, start: int) {
    if 0 <= start < s.len() {
        lemma_line_end_bounds(s, start);
    }
}

/// The set of names recovered from the persisted text, reading from
/// position `start` on: every maximal nonempty run of characters between
/// line separators.
pub open spec fn decode_from(s: Seq<char>, start: int) -> Set<Seq<char>>
    decreases s.len() + 1 - start when 0 <= start via decode_from_decreases
{
    if !(0 <= start < s.len()) {
        Set::empty()
    } else {
        let e = line_end(s, start);
        let rest = decode_from(s, e + 1);
        if e == start {
            rest
        } else {
            rest.insert(s.subrange(start, e))
        }
    }
}

/// The set of names a persisted text denotes.
pub open spec fn decode_set(s: Seq<char>) -> Set<Seq<char>> {
    decode_from(s, 0)
}

impl PackageTracker {
    /// The names in storage order (sorted, duplicate-free).
    pub closed spec fn names_seq(self) -> Seq<Seq<char>> {
        text::views_of(self.names@)
    }

    /// Well-formedness: strictly sorted (hence duplicate-free) and every
    /// name fit for the persisted format.
    pub open spec fn wf(self) -> bool {
        &&& forall|i: int, j: int|
            0 <= i < j < self.names_seq().len() ==> lex_lt(
                self.names_seq()[i],
                self.names_seq()[j],
            )
        &&& forall|i: int| 0 <= i < self.names_seq().len() ==> valid_name(self.names_seq()[i])
    }

    /// The text `save` produces.
    pub open spec fn encoded(self) -> Seq<char> {
        encode_names(self.names_seq())
    }

    /// An empty store: nothing tracked.
    pub fn new() -> (t: PackageTracker)
        ensures
            t.wf(),
            t@ == Set::<Seq<char>>::empty(),
    {
        let t = PackageTracker { names: Vec::new() };
        proof {
            assert(t@ =~= Set::<Seq<char>>::empty());
        }
        t
    }

    /// Number of tracked names.
    pub fn len(&self) -> (n: usize)
        ensures
            n == self.names_seq().len(),
    {
        self.names.len()
    }

    /// The tracked name at a storage position.
    pub fn get(&self, i: usize) -> (name: &String)
        requires
            i < self.names_seq().len(),
        ensures
            name@ == self.names_seq()[i as int],
    {
        &self.names[i]
    }

    /// Membership test.
    pub fn is_tracked(&self, name: &str) -> (r: bool)
        ensures
            r == self@.contains(name@),
    {
        let n = self.names.len();
        let mut i: usize = 0;
        while i < n
            invariant
                n == self.names_seq().len(),
                0 <= i <= n,
                forall|j: int| 0 <= j < i ==> self.names_seq()[j] != name@,
            decreases n - i,
        {
            if text::str_eq(self.names[i].as_str(), name) {
                assert(self.names_seq()[i as int] == name@);
                assert(self.names_seq().contains(name@));
                return true;
            }
            i += 1;
        }
        assert(!self.names_seq().contains(name@));
        false
    }

    /// Adds a name; adding one already present changes nothing.
    pub fn add(&mut self, name: &str)
        requires
            old(self).wf(),
            valid_name(name@),
        ensures
            final(self).wf(),
            final(self)@ == old(self)@.insert(name@),
    {
        let n = self.names.len();
        let mut idx: usize = 0;
        while idx < n && text::str_lt(self.names[idx].as_str(), name)
            invariant
                *self == *old(self),
                n == self.names_seq().len(),
                0 <= idx <= n,
                forall|j: int| 0 <= j < idx ==> lex_lt(self.names_seq()[j], name@),
            decreases n - idx,
        {
            idx += 1;
        }
        if idx < n && text::str_eq(self.names[idx].as_str(), name) {
            proof {
                assert(self.names_seq()[idx as int] == name@);
                assert(self.names_seq().contains(name@));
                assert(self@ =~= old(self)@.insert(name@));
            }
            return ;
        }
        proof {
            let ghost olds = old(self).names_seq();
            if idx < n {
                text::lemma_lex_lt_connected(name@, olds[idx as int]);
            }
            assert forall|k: int| idx <= k < n implies lex_lt(name@, olds[k]) by {
                if k > idx {
                    text::lemma_lex_lt_trans(name@, olds[idx as int], olds[k]);
                }
            }
        }
        let inserted = name.to_owned();
        let ghost elem = inserted;
        self.names.insert(idx, inserted);
        proof {
            old(self).names@.insert_ensures(idx as int, elem);
            let ghost olds = old(self).names_seq();
            let ghost news = self.names_seq();
            assert forall|j: int| 0 <= j < news.len() implies news[j] == (if j < idx {
                olds[j]
            } else if j == idx {
                name@
            } else {
                olds[j - 1]
            }) by {
                assert(news[j] == self.names@[j]@);
            }
            assert forall|i: int, j: int| 0 <= i < j < news.len() implies lex_lt(
                news[i],
                news[j],
            ) by {
                if j == idx {
                    assert(lex_lt(olds[i], name@));
                } else if i == idx && j > idx {
                    assert(lex_lt(name@, olds[j - 1]));
                } else if i < idx && j > idx {
                    assert(lex_lt(olds[i], name@));
                    assert(lex_lt(name@, olds[j - 1]));
                    text::lemma_lex_lt_trans(olds[i], name@, olds[j - 1]);
                }
            }
            assert forall|x: Seq<char>| self@.contains(x) implies old(self)@.insert(
                name@,
            ).contains(x) by {
                let k = choose|k: int| 0 <= k < news.len() && news[k] == x;
                if k != idx {
                    assert(olds.contains(x));
                }
            }
            assert forall|x: Seq<char>| old(self)@.insert(name@).contains(x) implies self@.contains(
                x,
            ) by {
                if x == name@ {
                    assert(news[idx as int] == x);
                } else {
                    let k = choose|k: int| 0 <= k < olds.len() && olds[k] == x;
                    if k < idx {
                        assert(news[k] == x);
                    } else {
                        assert(news[k + 1] == x);
                    }
                }
            }
            assert(self@ =~= old(self)@.insert(name@));
        }
    }

    /// Removes a name; removing an absent name changes nothing.
    pub fn remove(&mut self, name: &str)
        requires
            old(self).wf(),
        ensures
            final(self).wf(),
            final(self)@ == old(self)@.remove(name@),
    {
        let n = self.names.len();
        let mut idx: usize = 0;
        while idx < n
            invariant
                *self == *old(self),
                old(self).wf(),
                n == self.names_seq().len(),
                0 <= idx <= n,
                forall|j: int| 0 <= j < idx ==> self.names_seq()[j] != name@,
            decreases n - idx,
        {
            if text::str_eq(self.names[idx].as_str(), name) {
                self.names.remove(idx);
                proof {
                    old(self).names@.remove_ensures(idx as int);
                    let ghost olds = old(self).names_seq();
                    let ghost news = self.names_seq();
                    assert forall|j: int| 0 <= j < news.len() implies news[j] == (if j < idx {
                        olds[j]
                    } else {
                        olds[j + 1]
                    }) by {
                        assert(self.names@[j] == old(self).names@.remove(idx as int)[j]);
                    }
                    assert(olds[idx as int] == name@);
                    assert forall|k: int|
                        0 <= k < olds.len() && k != idx implies olds[k] != name@ by {
                        if k > idx {
                            assert(lex_lt(olds[idx as int], olds[k]));
                            text::lemma_lex_lt_irrefl(olds[k]);
                        }
                    }
                    assert forall|i: int, j: int| 0 <= i < j < news.len() implies lex_lt(
                        news[i],
                        news[j],
                    ) by {
                        if j < idx {
                            assert(lex_lt(olds[i], olds[j]));
                        } else if i < idx {
                            assert(lex_lt(olds[i], olds[j + 1]));
                        } else {
                            assert(lex_lt(olds[i + 1], olds[j + 1]));
                        }
                    }
                    assert forall|x: Seq<char>| self@.contains(x) implies old(self)@.remove(
                        name@,
                    ).contains(x) by {
                        let k = choose|k: int| 0 <= k < news.len() && news[k] == x;
                        if k < idx {
                            assert(olds[k] == x);
                        } else {
                            assert(olds[k + 1] == x);
                        }
                    }
                    assert forall|x: Seq<char>|
                        old(self)@.remove(name@).contains(x) implies self@.contains(x) by {
                        let k = choose|k: int| 0 <= k < olds.len() && olds[k] == x;
                        if k < idx {
                            assert(news[k] == x);
                        } else {
                            assert(news[k - 1] == x);
                        }
                    }
                    assert(self@ =~= old(self)@.remove(name@));
                }
                return ;
            }
            idx += 1;
        }
        proof {
            assert(!self.names_seq().contains(name@));
            assert(self@ =~= old(self)@.remove(name@));
        }
    }

    /// Renders the store in its persisted form: each name on a line of its
    /// own, in sorted order, so that saving the same set always yields the
    /// same text.
    pub fn save(&self) -> (r: String)
        requires
            self.wf(),
        ensures
            r@ == self.encoded(),
    {
        let n = self.names.len();
        let mut out = String::new();
        let mut i: usize = 0;
        proof {
            assert(self.names_seq().skip(0) =~= self.names_seq());
        }
        while i < n
            invariant
                self.wf(),
                n == self.names_seq().len(),
                0 <= i <= n,
                out@ + encode_names(self.names_seq().skip(i as int)) == self.encoded(),
            decreases n - i,
        {
            let ghost pre = out@;
            let ghost tail = self.names_seq().skip(i as int);
            out.append(self.names[i].as_str());
            out.append("\n");
            proof {
                reveal_strlit("\n");
                assert("\n"@ =~= seq!['\n']);
                assert(tail[0] == self.names_seq()[i as int]);
                assert(tail.skip(1) =~= self.names_seq().skip(i as int + 1));
                assert(encode_names(tail) == tail[0] + seq!['\n'] + encode_names(tail.skip(1)));
                assert(out@ + encode_names(self.names_seq().skip(i as int + 1)) =~= pre
                    + encode_names(tail));
            }
            i += 1;
        }
        proof {
            assert(self.names_seq().skip(n as int) =~= Seq::<Seq<char>>::empty());
            assert(out@ + encode_names(self.names_seq().skip(n as int)) =~= out@);
        }
        out
    }

    /// Rebuilds a store from persisted text; `None` stands for a record
    /// that does not exist yet, which means nothing is tracked.  Empty
    /// lines are ignored, so any text decodes to a store.
    pub fn load(content: Option<&str>) -> (t: PackageTracker)
        ensures
            t.wf(),
            match content {
                Option::None => t@ == Set::<Seq<char>>::empty(),
                Option::Some(s) => t@ == decode_set(s@),
            },
    {
        let mut t = PackageTracker::new();
        let s = match content {
            Option::None => { return t; },
            Option::Some(inner) => inner,
        };
        proof {
            assert(content == Option::Some(s));
        }
        let len = s.unicode_len();
        let mut start: usize = 0;
        proof {
            assert(t@.union(decode_from(s@, 0)) =~= decode_set(s@));
        }
        while start < len
            invariant
                content == Option::Some(s),
                len == s@.len(),
                0 <= start <= len,
                t.wf(),
                t@.union(decode_from(s@, start as int)) == decode_set(s@),
            decreases len - start,
        {
            let e = find_line_end(s, start);
            proof {
                lemma_line_end_bounds(s@, start as int);
            }
            let ghost told = t@;
            let ghost rest = decode_from(s@, e + 1);
            if e > start {
                let line = s.substring_char(start, e);
                proof {
                    assert forall|j: int| 0 <= j < line@.len() implies line@[j] != '\n' by {
                        assert(line@[j] == s@[start + j]);
                    }
                }
                t.add(line);
            }
            proof {
                assert(decode_from(s@, start as int) == if e == start {
                    rest
                } else {
                    rest.insert(s@.subrange(start as int, e as int))
                });
                assert(t@.union(rest) =~= told.union(decode_from(s@, start as int)));
            }
            if e >= len {
                proof {
                    assert(t@.union(decode_from(s@, e + 1)) =~= t@);
                }
                return t;
            }
            start = e + 1;
        }
        proof {
            assert(t@.union(decode_from(s@, start as int)) =~= t@);
        }
        t
    }
}

/// Finds the end of the line that begins at `start`.
fn find_line_end(s: &str, start: usize) -> (e: usize)
    requires
        start <= s@.len(),
    ensures
        e == line_end(s@, start as int),
        start <= e <= s@.len(),
{
    let len = s.unicode_len();
    let mut i: usize = start;
    while i < len
        invariant
            len == s@.len(),
            start <= i <= len,
            line_end(s@, start as int) == line_end(s@, i as int),
        decreases len - i,
    {
        if s.get_char(i) == '\n' {
            return i;
        }
        i += 1;
    }
    len
}


/// The position of the first line separator at or after `start` is the
/// first `k` with no separator before it and a separator (or the end) at it.
pub proof fn lemma_line_end_determined(s: Seq<char>, start: int, k: int)
    requires
        0 <= start <= k <= s.len(),
        forall|j: int| start <= j < k ==> s[j] != '\n',
        k == s.len() || s[k] == '\n',
    ensures
        line_end(s, start) == k,
    decreases k - start,
{
    if start < k {
        lemma_line_end_determined(s, start + 1, k);
    }
}

/// Scanning for a line separator is unaffected by text standing before the
/// scan position.
pub proof fn lemma_line_end_offset(prefix: Seq<char>, tail: Seq<char>, j: int)
    requires
        0 <= j <= tail.len(),
    ensures
        line_end(prefix + tail, prefix.len() + j) == prefix.len() + line_end(tail, j),
    decreases tail.len() - j,
{
    let s = prefix + tail;
    if j < tail.len() {
        assert(s[prefix.len() + j] == tail[j]);
        if tail[j] != '\n' {
            lemma_line_end_offset(prefix, tail, j + 1);
        }
    }
}

/// Decoding is unaffected by text standing before the decode position.
pub proof fn lemma_decode_from_offset(prefix: Seq<char>, tail: Seq<char>, j: int)
    requires
        0 <= j <= tail.len() + 1,
    ensures
        decode_from(prefix + tail, prefix.len() + j) == decode_from(tail, j),
    decreases tail.len() + 1 - j,
{
    let s = prefix + tail;
    if j >= tail.len() {
        assert(decode_from(s, prefix.len() + j) =~= decode_from(tail, j));
    } else {
        lemma_line_end_offset(prefix, tail, j);
        lemma_line_end_bounds(tail, j);
        let e = line_end(tail, j);
        lemma_decode_from_offset(prefix, tail, e + 1);
        assert(s.subrange(prefix.len() + j, prefix.len() + e) =~= tail.subrange(j, e));
        assert(decode_from(s, prefix.len() + j) =~= decode_from(tail, j));
    }
}

/// Decoding an encoded list of valid names yields exactly those names.
pub proof fn lemma_decode_encode(names: Seq<Seq<char>>)
    requires
        forall|i: int| 0 <= i < names.len() ==> valid_name(#[trigger] names[i]),
    ensures
        decode_set(encode_names(names)) == names.to_set(),
    decreases names.len(),
{
    let enc = encode_names(names);
    if names.len() == 0 {
        assert(decode_set(enc) =~= names.to_set());
    } else {
        let n0 = names[0];
        let rest = names.skip(1);
        let prefix = n0 + seq!['\n'];
        let tailenc = encode_names(rest);
        assert(enc =~= prefix + tailenc);
        assert forall|j: int| 0 <= j < n0.len() implies enc[j] != '\n' by {
            assert(enc[j] == n0[j]);
        }
        assert(enc[n0.len() as int] == '\n');
        lemma_line_end_determined(enc, 0, n0.len() as int);
        assert(enc.subrange(0, n0.len() as int) =~= n0);
        lemma_decode_from_offset(prefix, tailenc, 0);
        assert forall|i: int| 0 <= i < rest.len() implies valid_name(#[trigger] rest[i]) by {
            assert(rest[i] == names[i + 1]);
        }
        lemma_decode_encode(rest);
        assert(decode_from(enc, prefix.len() as int) == rest.to_set());
        assert forall|x: Seq<char>|
            names.to_set().contains(x) implies rest.to_set().insert(n0).contains(x) by {
            let i = choose|i: int| 0 <= i < names.len() && names[i] == x;
            if i > 0 {
                assert(rest[i - 1] == x);
                assert(rest.contains(x));
            }
        }
        assert forall|x: Seq<char>|
            rest.to_set().insert(n0).contains(x) implies names.to_set().contains(x) by {
            if x == n0 {
                assert(names[0] == x);
                assert(names.contains(x));
            } else {
                let i = choose|i: int| 0 <= i < rest.len() && rest[i] == x;
                assert(names[i + 1] == x);
                assert(names.contains(x));
            }
        }
        assert(decode_set(enc) =~= names.to_set());
    }
}

/// Round trip of persistence: loading what `save` wrote recovers exactly
/// the saved set, independent of order.
pub proof fn lemma_save_load_round_trip(t: PackageTracker)
    requires
        t.wf(),
    ensures
        decode_set(t.encoded()) == t@,
{
    lemma_decode_encode(t.names_seq());
}

/// `add` and `remove` are idempotent on the tracked set, and a name added
/// twice and removed once is absent, whatever the starting membership.
pub proof fn lemma_add_remove_idempotent(s: Set<Seq<char>>, x: Seq<char>)
    ensures
        s.insert(x).insert(x) == s.insert(x),
        s.remove(x).remove(x) == s.remove(x),
        !s.insert(x).insert(x).remove(x).contains(x),
{
    assert(s.insert(x).insert(x) =~= s.insert(x));
    assert(s.remove(x).remove(x) =~= s.remove(x));
}

} // verus!
