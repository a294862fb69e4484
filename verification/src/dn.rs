//! Distinguished names: the structural grammar, the leading `uid` component
//! and the direct-child relation.

use vstd::prelude::*;
use crate::text::{is_word, is_word_char, to_chars, word_char};

verus! {

/// Where a left-to-right reading of a distinguished name stands.
#[derive(Clone, Copy, PartialEq, Eq, Debug, Structural)]
pub enum DnState {
    /// At the start of a component: an attribute name must begin.
    AttrStart,
    /// Inside an attribute name of at least one character.
    InAttr,
    /// Just after `=`: a value must begin.
    ValueStart,
    /// Inside a value of at least one character; the only accepting state.
    InValue,
    /// The text read so far cannot be continued to a distinguished name.
    Rejected,
}

/// One character further in the reading of a distinguished name.
pub open spec fn dn_step(st: DnState, c: char) -> DnState {
    match st {
        DnState::AttrStart => if word_char(c) {
            DnState::InAttr
        } else {
            DnState::Rejected
        },
        DnState::InAttr => if word_char(c) {
            DnState::InAttr
        } else if c == '=' {
            DnState::ValueStart
        } else {
            DnState::Rejected
        },
        DnState::ValueStart => if word_char(c) {
            DnState::InValue
        } else {
            DnState::Rejected
        },
        DnState::InValue => if word_char(c) {
            DnState::InValue
        } else if c == ',' {
            DnState::AttrStart
        } else {
            DnState::Rejected
        },
        DnState::Rejected => DnState::Rejected,
    }
}

/// The state reached from `st` after reading all of `s`.
pub open spec fn dn_run(st: DnState, s: Seq<char>) -> DnState
    decreases s.len(),
{
    if s.len() == 0 {
        st
    } else {
        dn_step(dn_run(st, s.drop_last()), s.last())
    }
}

/// The reading ends inside a value: the only way to end well.
pub open spec fn accepted(s: Seq<char>) -> bool {
    dn_run(DnState::AttrStart, s) == DnState::InValue
}

/// One component: a word, `=`, and a word.
pub open spec fn is_component(s: Seq<char>) -> bool {
    exists|k: int|
        0 <= k < s.len() && #[trigger] s[k] == '=' && is_word(s.subrange(0, k)) && is_word(
            s.subrange(k + 1, s.len() as int),
        )
}

/// The grammar of distinguished names: one component, or a distinguished
/// name, a comma and one more component. So every component is `attr=value`
/// with both sides non-empty runs of word characters, and single commas
/// stand between components and nowhere else.
pub open spec fn well_formed(s: Seq<char>) -> bool
    decreases s.len(),
{
    ||| is_component(s)
    ||| exists|k: int|
        0 <= k < s.len() && #[trigger] s[k] == ',' && well_formed(s.subrange(0, k))
            && is_component(s.subrange(k + 1, s.len() as int))
}

/// The four characters `uid=`.
pub open spec fn uid_prefix() -> Seq<char> {
    seq!['u', 'i', 'd', '=']
}

/// The end of the run of word characters that starts at `from`: the first
/// position at or after `from` that holds no word character, or the length.
pub open spec fn word_end(s: Seq<char>, from: int) -> int
    decreases s.len() - from,
{
    if 0 <= from < s.len() && word_char(s[from]) {
        word_end(s, from + 1)
    } else {
        from
    }
}

/// The text begins `uid=<word>,`: it names a user at its front, below
/// something else.
pub open spec fn has_leading_uid(s: Seq<char>) -> bool {
    &&& s.len() > 4
    &&& s.subrange(0, 4) == uid_prefix()
    &&& 4 < word_end(s, 4) < s.len()
    &&& s[word_end(s, 4)] == ','
}

/// `dn` is `uid=<word>,` followed by exactly `base`.
pub open spec fn direct_child(dn: Seq<char>, base: Seq<char>) -> bool {
    &&& has_leading_uid(dn)
    &&& dn.subrange(word_end(dn, 4) + 1, dn.len() as int) == base
}

/// A component `uid=<word>` stands at position `i`: the position is the start
/// of the text or follows a comma, the four characters `uid=` stand there, a
/// non-empty run of word characters follows, and behind it the text ends or a
/// comma stands.
pub open spec fn uid_component_at(s: Seq<char>, i: int) -> bool {
    &&& 0 <= i
    &&& i + 4 < s.len()
    &&& (i == 0 || s[i - 1] == ',')
    &&& s.subrange(i, i + 4) == uid_prefix()
    &&& i + 4 < word_end(s, i + 4)
    &&& (word_end(s, i + 4) == s.len() || s[word_end(s, i + 4)] == ',')
}

/// The text has a `uid` component, and only one.
pub open spec fn has_one_uid(s: Seq<char>) -> bool {
    exists|i: int|
        #[trigger] uid_component_at(s, i) && forall|j: int|
            #[trigger] uid_component_at(s, j) ==> j == i
}

/// The user identifier of a stored name: the value of its `uid` component,
/// wherever in the name that component stands. There is one exactly when the
/// name follows the grammar and has one `uid` component; a malformed name, a
/// name without the component and a name with more than one have none.
pub open spec fn uid_of(s: Seq<char>) -> Option<Seq<char>> {
    if well_formed(s) && has_one_uid(s) {
        let i = choose|i: int| uid_component_at(s, i);
        Some(s.subrange(i + 4, word_end(s, i + 4)))
    } else {
        None
    }
}

/// The message for a name without a user identifier.
pub open spec fn uid_not_found(dn: Seq<char>) -> Seq<char> {
    "UID not found in: "@ + dn
}

/// From `from` to the end of its run, every character is a word character.
pub proof fn lemma_word_run(s: Seq<char>, from: int)
    requires
        0 <= from <= s.len(),
    ensures
        from <= word_end(s, from) <= s.len(),
        forall|j: int| from <= j < word_end(s, from) ==> word_char(#[trigger] s[j]),
        word_end(s, from) < s.len() ==> !word_char(s[word_end(s, from)]),
    decreases s.len() - from,
{
    if from < s.len() && word_char(s[from]) {
        lemma_word_run(s, from + 1);
    }
}

/// A run of word characters that ends at `e` is the whole run from `from`.
pub proof fn lemma_word_end_at(s: Seq<char>, from: int, e: int)
    requires
        0 <= from <= e <= s.len(),
        forall|j: int| from <= j < e ==> word_char(#[trigger] s[j]),
        e == s.len() || !word_char(s[e]),
    ensures
        word_end(s, from) == e,
    decreases e - from,
{
    if from < e {
        assert(word_char(s[from]));
        lemma_word_end_at(s, from + 1, e);
    }
}

/// The identifier of a name is a word, and `uid=` with that word is one of
/// the name's components: it starts the name or follows a comma, and ends the
/// name or is followed by one.
pub proof fn lemma_uid_is_component(s: Seq<char>)
    requires
        uid_of(s) is Some,
    ensures
        well_formed(s),
        is_word(uid_of(s)->0),
        exists|i: int|
            {
                &&& 0 <= i
                &&& i + 4 + uid_of(s)->0.len() <= s.len()
                &&& (i == 0 || s[i - 1] == ',')
                &&& #[trigger] s.subrange(i, i + 4 + uid_of(s)->0.len()) == uid_prefix() + uid_of(
                    s,
                )->0
                &&& (i + 4 + uid_of(s)->0.len() == s.len() || s[i + 4 + uid_of(s)->0.len()] == ',')
            },
{
    let i = choose|i: int| uid_component_at(s, i);
    let e = word_end(s, i + 4);
    let v = s.subrange(i + 4, e);
    lemma_word_run(s, i + 4);
    assert(uid_of(s)->0 == v);
    assert(is_word(v)) by {
        assert forall|j: int| 0 <= j < v.len() implies word_char(#[trigger] v[j]) by {
            assert(v[j] == s[i + 4 + j]);
        }
    }
    assert(s.subrange(i, i + 4 + v.len()) =~= s.subrange(i, i + 4) + v);
}

/// The converse: in a well-formed name, a component `uid=v` (`v` a word, the
/// component starting the name or following a comma, and ending the name or
/// followed by one) gives the identifier `v`, provided no other `uid`
/// component stands in the name.
pub proof fn lemma_component_is_uid(s: Seq<char>, i: int, v: Seq<char>)
    requires
        well_formed(s),
        is_word(v),
        0 <= i,
        i + 4 + v.len() <= s.len(),
        i == 0 || s[i - 1] == ',',
        s.subrange(i, i + 4 + v.len()) == uid_prefix() + v,
        i + 4 + v.len() == s.len() || s[i + 4 + v.len()] == ',',
        forall|j: int| #[trigger] uid_component_at(s, j) ==> j == i,
    ensures
        uid_of(s) == Some(v),
{
    let e = i + 4 + v.len();
    let whole = s.subrange(i, e);
    assert(s.subrange(i, i + 4) =~= uid_prefix()) by {
        assert forall|k: int| 0 <= k < 4 implies s.subrange(i, i + 4)[k] == uid_prefix()[k] by {
            assert(s[i + k] == whole[k]);
        }
    }
    assert forall|j: int| i + 4 <= j < e implies word_char(#[trigger] s[j]) by {
        assert(s[j] == whole[j - i]);
        assert(whole[j - i] == v[j - i - 4]);
    }
    lemma_word_end_at(s, i + 4, e);
    assert(uid_component_at(s, i));
    let chosen = choose|k: int| uid_component_at(s, k);
    assert(chosen == i);
    assert(s.subrange(i + 4, e) =~= v) by {
        assert forall|k: int| 0 <= k < v.len() implies s.subrange(i + 4, e)[k] == v[k] by {
            assert(s[i + 4 + k] == whole[4 + k]);
        }
    }
}

/// `uid=` with a word behind it is a component, and holds no comma.
proof fn lemma_uid_component_shape(v: Seq<char>)
    requires
        is_word(v),
    ensures
        is_word(seq!['u', 'i', 'd']),
        is_component(uid_prefix() + v),
        forall|k: int| 0 <= k < 4 + v.len() ==> #[trigger] (uid_prefix() + v)[k] != ',',
        forall|k: int| 0 <= k < 4 ==> #[trigger] uid_prefix()[k] != ',',
{
    let comp = uid_prefix() + v;
    assert(word_char('u') && word_char('i') && word_char('d'));
    assert(comp[3] == '=');
    assert(comp.subrange(0, 3) =~= seq!['u', 'i', 'd']);
    assert(comp.subrange(4, comp.len() as int) =~= v);
    assert forall|k: int| 0 <= k < 4 + v.len() implies #[trigger] comp[k] != ',' by {
        if k >= 4 {
            assert(comp[k] == v[k - 4]);
            assert(word_char(v[k - 4]));
        }
    }
}

/// A name without a `uid` component, a comma and `uid=v` give a name with the
/// identifier `v`.
pub proof fn lemma_uid_appended(pre: Seq<char>, v: Seq<char>)
    requires
        well_formed(pre),
        forall|j: int| !#[trigger] uid_component_at(pre, j),
        is_word(v),
    ensures
        uid_of(pre + seq![','] + uid_prefix() + v) == Some(v),
{
    let comp = uid_prefix() + v;
    let s = pre + seq![','] + uid_prefix() + v;
    let m = pre.len() as int;
    let p = m + 1;
    lemma_uid_component_shape(v);
    assert(s =~= pre + seq![','] + comp);
    assert(s[m] == ',');
    assert(s.subrange(0, m) =~= pre);
    assert(s.subrange(m + 1, s.len() as int) =~= comp);
    assert(well_formed(s));
    assert forall|j: int| #[trigger] uid_component_at(s, j) implies j == p by {
        if j > p {
            assert(s[j - 1] == comp[j - 1 - p]);
        } else if j < p && j + 4 > m {
            assert(s.subrange(j, j + 4)[m - j] == s[m]);
            assert(uid_prefix()[m - j] != ',');
        } else if j < p {
            let e = word_end(s, j + 4);
            lemma_word_run(s, j + 4);
            if e > m {
                assert(word_char(s[m]));
            }
            assert forall|k: int| j + 4 <= k < e implies word_char(#[trigger] pre[k]) by {
                assert(pre[k] == s[k]);
            }
            if e < m {
                assert(pre[e] == s[e]);
            }
            lemma_word_end_at(pre, j + 4, e);
            assert(pre.subrange(j, j + 4) =~= s.subrange(j, j + 4));
            if j > 0 {
                assert(pre[j - 1] == s[j - 1]);
            }
            assert(uid_component_at(pre, j));
        }
    }
    assert(s.subrange(p, p + 4 + v.len()) =~= comp);
    lemma_component_is_uid(s, p, v);
}

/// `uid=v`, a comma and a name without a `uid` component give a name with the
/// identifier `v`.
pub proof fn lemma_uid_in_front(v: Seq<char>, rest: Seq<char>)
    requires
        well_formed(rest),
        forall|j: int| !#[trigger] uid_component_at(rest, j),
        is_word(v),
    ensures
        uid_of(uid_prefix() + v + seq![','] + rest) == Some(v),
{
    let comp = uid_prefix() + v;
    let s = uid_prefix() + v + seq![','] + rest;
    let c = comp.len() as int;
    let q = c + 1;
    let attr = seq!['u', 'i', 'd'];
    lemma_uid_component_shape(v);
    lemma_prepend_component(attr, v, rest);
    assert(s =~= attr + seq!['='] + v + seq![','] + rest);
    assert(s =~= comp + seq![','] + rest);
    assert(s[c] == ',');
    assert forall|j: int| #[trigger] uid_component_at(s, j) implies j == 0 by {
        if j != 0 {
            if j - 1 < c {
                assert(s[j - 1] == comp[j - 1]);
            } else {
                let r = j - q;
                let e = word_end(s, j + 4);
                lemma_word_run(s, j + 4);
                assert forall|k: int| r + 4 <= k < e - q implies word_char(#[trigger] rest[k]) by {
                    assert(rest[k] == s[q + k]);
                }
                if e < s.len() {
                    assert(rest[e - q] == s[e]);
                }
                lemma_word_end_at(rest, r + 4, e - q);
                assert(rest.subrange(r, r + 4) =~= s.subrange(j, j + 4));
                if r > 0 {
                    assert(rest[r - 1] == s[j - 1]);
                }
                assert(uid_component_at(rest, r));
            }
        }
    }
    assert(s.subrange(0, c) =~= comp);
    lemma_component_is_uid(s, 0, v);
}

/// A name with two `uid` components has no identifier.
pub proof fn lemma_two_uids_none(s: Seq<char>, i: int, j: int)
    requires
        uid_component_at(s, i),
        uid_component_at(s, j),
        i != j,
    ensures
        uid_of(s) is None,
{
}

/// A name made of the one component `uid=<word>` has that word as its
/// identifier.
pub proof fn lemma_uid_alone(v: Seq<char>)
    requires
        is_word(v),
    ensures
        uid_of(uid_prefix() + v) == Some(v),
{
    let s = uid_prefix() + v;
    let attr = seq!['u', 'i', 'd'];
    assert(is_word(attr)) by {
        assert(word_char('u') && word_char('i') && word_char('d'));
    }
    lemma_component_well_formed(attr, v);
    assert(s =~= attr + seq!['='] + v);
    assert(s.subrange(0, 4) =~= uid_prefix());
    assert forall|j: int| 4 <= j < s.len() implies word_char(#[trigger] s[j]) by {
        assert(s[j] == v[j - 4]);
    }
    lemma_word_end_at(s, 4, s.len() as int);
    assert(uid_component_at(s, 0));
    assert forall|j: int| #[trigger] uid_component_at(s, j) implies j == 0 by {
        if j != 0 {
            assert(s[j - 1] == ',');
            if j - 1 >= 4 {
                assert(word_char(s[j - 1]));
            }
        }
    }
    let i = choose|i: int| uid_component_at(s, i);
    assert(i == 0);
    assert(s.subrange(4, s.len() as int) =~= v);
}

/// Reading `a` and then `b` is reading `a + b`.
pub proof fn lemma_run_concat(st: DnState, a: Seq<char>, b: Seq<char>)
    ensures
        dn_run(st, a + b) == dn_run(dn_run(st, a), b),
    decreases b.len(),
{
    if b.len() == 0 {
        assert(a + b =~= a);
    } else {
        lemma_run_concat(st, a, b.drop_last());
        assert((a + b).drop_last() =~= a + b.drop_last());
        assert((a + b).last() == b.last());
    }
}

/// Reading one character is one step.
pub proof fn lemma_run_one(st: DnState, c: char)
    ensures
        dn_run(st, seq![c]) == dn_step(st, c),
{
    assert(seq![c].drop_last() =~= Seq::<char>::empty());
    assert(dn_run(st, seq![c].drop_last()) == st);
}

/// A word read at the start of a name or of a value leaves the reading
/// inside that name or value.
pub proof fn lemma_run_word(st: DnState, w: Seq<char>)
    requires
        is_word(w),
    ensures
        st == DnState::AttrStart || st == DnState::InAttr ==> dn_run(st, w) == DnState::InAttr,
        st == DnState::ValueStart || st == DnState::InValue ==> dn_run(st, w) == DnState::InValue,
    decreases w.len(),
{
    if w.len() == 1 {
        assert(w =~= seq![w[0]]);
        lemma_run_one(st, w[0]);
    } else {
        assert(is_word(w.drop_last())) by {
            assert forall|i: int| 0 <= i < w.drop_last().len() implies word_char(
                #[trigger] w.drop_last()[i],
            ) by {
                assert(w.drop_last()[i] == w[i]);
            }
        }
        lemma_run_word(st, w.drop_last());
        assert(word_char(w[w.len() - 1]));
    }
}

/// Once rejected, always rejected.
pub proof fn lemma_rejected_stays(s: Seq<char>)
    ensures
        dn_run(DnState::Rejected, s) == DnState::Rejected,
    decreases s.len(),
{
    if s.len() > 0 {
        lemma_rejected_stays(s.drop_last());
    }
}

/// Reading a component from the start of one ends inside its value.
pub proof fn lemma_component_accepted(attr: Seq<char>, value: Seq<char>)
    requires
        is_word(attr),
        is_word(value),
    ensures
        dn_run(DnState::AttrStart, attr + seq!['='] + value) == DnState::InValue,
{
    lemma_run_word(DnState::AttrStart, attr);
    lemma_run_one(DnState::InAttr, '=');
    lemma_run_concat(DnState::AttrStart, attr, seq!['=']);
    lemma_run_word(DnState::ValueStart, value);
    lemma_run_concat(DnState::AttrStart, attr + seq!['='], value);
}

/// A component stays one when a word character is put behind it.
proof fn lemma_component_extended(x: Seq<char>, c: char)
    requires
        is_component(x),
        word_char(c),
    ensures
        is_component(x.push(c)),
{
    let k = choose|k: int|
        0 <= k < x.len() && #[trigger] x[k] == '=' && is_word(x.subrange(0, k)) && is_word(
            x.subrange(k + 1, x.len() as int),
        );
    let y = x.push(c);
    assert(y[k] == '=');
    assert(y.subrange(0, k) =~= x.subrange(0, k));
    let v = x.subrange(k + 1, x.len() as int);
    let w = y.subrange(k + 1, y.len() as int);
    assert(w =~= v.push(c));
    assert(is_word(w)) by {
        assert forall|i: int| 0 <= i < w.len() implies word_char(#[trigger] w[i]) by {
            if i < v.len() {
                assert(w[i] == v[i]);
            }
        }
    }
}

/// The text is empty or ends a distinguished name with a comma.
spec fn at_component_start(s: Seq<char>) -> bool {
    s.len() == 0 || (s.last() == ',' && well_formed(s.drop_last()))
}

/// The text ends in the unfinished attribute name of a new component.
spec fn in_attr(s: Seq<char>) -> bool {
    exists|k: int|
        0 <= k < s.len() && is_word(#[trigger] s.subrange(k, s.len() as int))
            && at_component_start(s.subrange(0, k))
}

/// What a state says of the text read so far.
spec fn explains(st: DnState, s: Seq<char>) -> bool {
    match st {
        DnState::AttrStart => at_component_start(s),
        DnState::InAttr => in_attr(s),
        DnState::ValueStart => s.len() > 0 && s.last() == '=' && in_attr(s.drop_last()),
        DnState::InValue => well_formed(s),
        DnState::Rejected => true,
    }
}

/// A word character at the start of a component begins an attribute name.
proof fn lemma_sound_attr_start(s: Seq<char>)
    requires
        s.len() > 0,
        word_char(s.last()),
        at_component_start(s.drop_last()),
    ensures
        in_attr(s),
{
    let n = s.len() as int;
    assert(s.subrange(n - 1, n) =~= seq![s.last()]);
    assert(is_word(s.subrange(n - 1, n)));
    assert(s.subrange(0, n - 1) =~= s.drop_last());
}

/// A word character inside an attribute name continues it.
proof fn lemma_sound_in_attr(s: Seq<char>)
    requires
        s.len() > 0,
        word_char(s.last()),
        in_attr(s.drop_last()),
    ensures
        in_attr(s),
{
    let t = s.drop_last();
    let c = s.last();
    let n = s.len() as int;
    let k = choose|k: int|
        0 <= k < t.len() && is_word(#[trigger] t.subrange(k, t.len() as int))
            && at_component_start(t.subrange(0, k));
    let w = t.subrange(k, t.len() as int);
    assert(s.subrange(k, n) =~= w.push(c));
    assert(is_word(s.subrange(k, n))) by {
        assert forall|i: int| 0 <= i < n - k implies word_char(#[trigger] s.subrange(k, n)[i]) by {
            if i < w.len() {
                assert(s.subrange(k, n)[i] == w[i]);
            }
        }
    }
    assert(s.subrange(0, k) =~= t.subrange(0, k));
}

/// A word character behind `attr=` completes a component, and with it a
/// distinguished name.
proof fn lemma_sound_value_start(s: Seq<char>)
    requires
        s.len() > 1,
        word_char(s.last()),
        s.drop_last().last() == '=',
        in_attr(s.drop_last().drop_last()),
    ensures
        well_formed(s),
{
    let c = s.last();
    let n = s.len() as int;
    let u = s.drop_last().drop_last();
    let k = choose|k: int|
        0 <= k < u.len() && is_word(#[trigger] u.subrange(k, u.len() as int))
            && at_component_start(u.subrange(0, k));
    let attr = u.subrange(k, u.len() as int);
    let p = u.subrange(0, k);
    let comp = s.subrange(k, n);
    let a = attr.len() as int;
    assert(comp[a] == '=');
    assert(comp.subrange(0, a) =~= attr);
    assert(comp.subrange(a + 1, comp.len() as int) =~= seq![c]);
    assert(is_word(comp.subrange(a + 1, comp.len() as int)));
    assert(is_component(comp));
    if k == 0 {
        assert(s =~= comp);
    } else {
        assert(p.last() == ',');
        assert(s[k - 1] == ',');
        assert(s.subrange(0, k - 1) =~= p.drop_last());
        assert(s.subrange((k - 1) + 1, n) =~= comp);
    }
}

/// A word character behind a distinguished name continues its last value.
proof fn lemma_sound_in_value(s: Seq<char>)
    requires
        s.len() > 0,
        word_char(s.last()),
        well_formed(s.drop_last()),
    ensures
        well_formed(s),
{
    let t = s.drop_last();
    let c = s.last();
    let n = s.len() as int;
    if is_component(t) {
        lemma_component_extended(t, c);
        assert(t.push(c) =~= s);
    } else {
        let k = choose|k: int|
            0 <= k < t.len() && #[trigger] t[k] == ',' && well_formed(t.subrange(0, k))
                && is_component(t.subrange(k + 1, t.len() as int));
        let comp = t.subrange(k + 1, t.len() as int);
        lemma_component_extended(comp, c);
        assert(s[k] == ',');
        assert(s.subrange(0, k) =~= t.subrange(0, k));
        assert(s.subrange(k + 1, n) =~= comp.push(c));
    }
}

/// Every state but the rejecting one tells what the text read so far is.
proof fn lemma_run_sound(s: Seq<char>)
    ensures
        explains(dn_run(DnState::AttrStart, s), s),
    decreases s.len(),
{
    if s.len() > 0 {
        let t = s.drop_last();
        let c = s.last();
        lemma_run_sound(t);
        let st = dn_run(DnState::AttrStart, t);
        match st {
            DnState::AttrStart => {
                if word_char(c) {
                    lemma_sound_attr_start(s);
                }
            },
            DnState::InAttr => {
                if word_char(c) {
                    lemma_sound_in_attr(s);
                }
            },
            DnState::ValueStart => {
                if word_char(c) {
                    lemma_sound_value_start(s);
                }
            },
            DnState::InValue => {
                if word_char(c) {
                    lemma_sound_in_value(s);
                }
            },
            DnState::Rejected => {},
        }
    }
}

/// Reading a distinguished name ends inside a value.
proof fn lemma_run_complete(s: Seq<char>)
    requires
        well_formed(s),
    ensures
        accepted(s),
    decreases s.len(),
{
    let n = s.len() as int;
    if is_component(s) {
        let k = choose|k: int|
            0 <= k < s.len() && #[trigger] s[k] == '=' && is_word(s.subrange(0, k)) && is_word(
                s.subrange(k + 1, n),
            );
        lemma_component_accepted(s.subrange(0, k), s.subrange(k + 1, n));
        assert(s =~= s.subrange(0, k) + seq!['='] + s.subrange(k + 1, n));
    } else {
        let k = choose|k: int|
            0 <= k < s.len() && #[trigger] s[k] == ',' && well_formed(s.subrange(0, k))
                && is_component(s.subrange(k + 1, n));
        let d = s.subrange(0, k);
        let comp = s.subrange(k + 1, n);
        lemma_run_complete(d);
        let j = choose|j: int|
            0 <= j < comp.len() && #[trigger] comp[j] == '=' && is_word(comp.subrange(0, j))
                && is_word(comp.subrange(j + 1, comp.len() as int));
        lemma_component_accepted(comp.subrange(0, j), comp.subrange(j + 1, comp.len() as int));
        assert(comp =~= comp.subrange(0, j) + seq!['='] + comp.subrange(j + 1, comp.len() as int));
        lemma_run_one(DnState::InValue, ',');
        lemma_run_concat(DnState::AttrStart, d, seq![',']);
        lemma_run_concat(DnState::AttrStart, d + seq![','], comp);
        assert(s =~= d + seq![','] + comp);
    }
}

/// A text follows the grammar exactly when reading it from left to right
/// ends inside a value.
pub proof fn lemma_reading_decides(s: Seq<char>)
    ensures
        well_formed(s) == accepted(s),
{
    if well_formed(s) {
        lemma_run_complete(s);
    }
    lemma_run_sound(s);
}

/// A single component `attr=value` of two words is a distinguished name.
pub proof fn lemma_component_well_formed(attr: Seq<char>, value: Seq<char>)
    requires
        is_word(attr),
        is_word(value),
    ensures
        well_formed(attr + seq!['='] + value),
{
    lemma_component_accepted(attr, value);
    lemma_reading_decides(attr + seq!['='] + value);
}

/// A component `attr=value` and a comma in front of a distinguished name
/// give a distinguished name.
pub proof fn lemma_prepend_component(attr: Seq<char>, value: Seq<char>, rest: Seq<char>)
    requires
        is_word(attr),
        is_word(value),
        well_formed(rest),
    ensures
        well_formed(attr + seq!['='] + value + seq![','] + rest),
{
    let head = attr + seq!['='] + value;
    lemma_component_accepted(attr, value);
    lemma_reading_decides(rest);
    lemma_run_one(DnState::InValue, ',');
    lemma_run_concat(DnState::AttrStart, head, seq![',']);
    lemma_run_concat(DnState::AttrStart, head + seq![','], rest);
    lemma_reading_decides(head + seq![','] + rest);
}

/// A text that holds a character which is neither a word character, nor `=`,
/// nor `,` is no distinguished name.
pub proof fn lemma_foreign_char_rejected(s: Seq<char>, i: int)
    requires
        0 <= i < s.len(),
        !word_char(s[i]),
        s[i] != '=',
        s[i] != ',',
    ensures
        !well_formed(s),
{
    let a = s.subrange(0, i);
    let b = s.subrange(i + 1, s.len() as int);
    assert(s =~= a + seq![s[i]] + b);
    lemma_run_concat(DnState::AttrStart, a, seq![s[i]]);
    lemma_run_one(dn_run(DnState::AttrStart, a), s[i]);
    lemma_run_concat(DnState::AttrStart, a + seq![s[i]], b);
    lemma_rejected_stays(b);
    lemma_reading_decides(s);
}

/// A text with a space in it is no distinguished name.
pub proof fn lemma_space_rejected(s: Seq<char>, i: int)
    requires
        0 <= i < s.len(),
        s[i] == ' ',
    ensures
        !well_formed(s),
{
    lemma_foreign_char_rejected(s, i);
}

/// A text with an empty component, or with an empty side of one, is no
/// distinguished name: that is, a text where a separator (`,` or `=`) stands
/// at the start, at the end, or right behind another separator.
pub proof fn lemma_empty_component_rejected(s: Seq<char>, i: int)
    requires
        0 <= i < s.len(),
        s[i] == ',' || s[i] == '=',
        i == 0 || i == s.len() - 1 || s[i - 1] == ',' || s[i - 1] == '=',
    ensures
        !well_formed(s),
{
    let c = s[i];
    let a = s.subrange(0, i);
    let b = s.subrange(i + 1, s.len() as int);
    assert(s =~= a + seq![c] + b);
    lemma_run_concat(DnState::AttrStart, a, seq![c]);
    lemma_run_one(dn_run(DnState::AttrStart, a), c);
    lemma_run_concat(DnState::AttrStart, a + seq![c], b);
    let before = dn_run(DnState::AttrStart, a);
    let after = dn_step(before, c);
    assert(!word_char(c));
    assert(after != DnState::InValue && after != DnState::InAttr);
    if i > 0 && (s[i - 1] == ',' || s[i - 1] == '=') {
        assert(a.last() == s[i - 1]);
        assert(!word_char(a.last()));
        assert(before == dn_step(dn_run(DnState::AttrStart, a.drop_last()), a.last()));
        assert(before != DnState::InValue && before != DnState::InAttr);
        assert(after == DnState::Rejected);
        lemma_rejected_stays(b);
    } else if i == 0 {
        assert(a.len() == 0);
        assert(after == DnState::Rejected);
        lemma_rejected_stays(b);
    } else {
        assert(b.len() == 0);
        assert(dn_run(after, b) == after);
    }
    lemma_reading_decides(s);
}

/// The empty text is no distinguished name.
pub proof fn lemma_empty_rejected()
    ensures
        !well_formed(Seq::<char>::empty()),
{
    lemma_reading_decides(Seq::<char>::empty());
}

/// A text that begins with a comma is no distinguished name.
pub proof fn lemma_leading_comma_rejected(s: Seq<char>)
    requires
        s.len() > 0,
        s[0] == ',',
    ensures
        !well_formed(s),
{
    lemma_empty_component_rejected(s, 0);
}

/// Whether `dn` follows the grammar of distinguished names.
pub fn is_well_formed(dn: &str) -> (r: bool)
    ensures
        r == well_formed(dn@),
{
    let chars = to_chars(dn);
    reads_well(&chars)
}

/// Whether the characters follow the grammar of distinguished names.
fn reads_well(chars: &Vec<char>) -> (r: bool)
    ensures
        r == well_formed(chars@),
{
    let mut st = DnState::AttrStart;
    let mut i: usize = 0;
    while i < chars.len()
        invariant
            i <= chars.len(),
            st == dn_run(DnState::AttrStart, chars@.take(i as int)),
        decreases chars.len() - i,
    {
        let c = chars[i];
        let w = is_word_char(c);
        proof {
            assert(chars@.take(i + 1).drop_last() =~= chars@.take(i as int));
            assert(chars@.take(i + 1).last() == c);
        }
        st = match st {
            DnState::AttrStart => if w {
                DnState::InAttr
            } else {
                DnState::Rejected
            },
            DnState::InAttr => if w {
                DnState::InAttr
            } else if c == '=' {
                DnState::ValueStart
            } else {
                DnState::Rejected
            },
            DnState::ValueStart => if w {
                DnState::InValue
            } else {
                DnState::Rejected
            },
            DnState::InValue => if w {
                DnState::InValue
            } else if c == ',' {
                DnState::AttrStart
            } else {
                DnState::Rejected
            },
            DnState::Rejected => DnState::Rejected,
        };
        i += 1;
    }
    proof {
        assert(chars@.take(i as int) =~= chars@);
        lemma_reading_decides(chars@);
    }
    st == DnState::InValue
}

/// The end of the run of word characters that starts at `from`.
fn scan_word(chars: &Vec<char>, from: usize) -> (e: usize)
    requires
        from <= chars.len(),
    ensures
        e == word_end(chars@, from as int),
        from <= e <= chars.len(),
{
    let mut i: usize = from;
    while i < chars.len() && is_word_char(chars[i])
        invariant
            from <= i <= chars.len(),
            word_end(chars@, from as int) == word_end(chars@, i as int),
        decreases chars.len() - i,
    {
        i += 1;
    }
    i
}

/// Whether the four characters `uid=` stand at position `i`.
fn uid_prefix_at(chars: &Vec<char>, i: usize) -> (r: bool)
    requires
        i + 4 <= chars.len(),
    ensures
        r == (chars@.subrange(i as int, i + 4) == uid_prefix()),
{
    let ghost sub = chars@.subrange(i as int, i + 4);
    proof {
        assert(sub[0] == chars@[i as int]);
        assert(sub[1] == chars@[i + 1]);
        assert(sub[2] == chars@[i + 2]);
        assert(sub[3] == chars@[i + 3]);
    }
    if chars[i] == 'u' && chars[i + 1] == 'i' && chars[i + 2] == 'd' && chars[i + 3] == '=' {
        proof {
            assert(sub =~= uid_prefix());
        }
        true
    } else {
        false
    }
}

/// Whether the characters begin `uid=<word>,`; with it, where the word ends.
fn leading_uid_end(chars: &Vec<char>) -> (r: Option<usize>)
    ensures
        r is Some <==> has_leading_uid(chars@),
        r is Some ==> r->0 == word_end(chars@, 4) && 4 < r->0 < chars.len(),
{
    if chars.len() <= 4 || !uid_prefix_at(chars, 0) {
        return None;
    }
    let e = scan_word(chars, 4);
    if e > 4 && e < chars.len() && chars[e] == ',' {
        Some(e)
    } else {
        None
    }
}

/// Whether a `uid` component stands at position `i`; with it, where its word
/// ends.
fn uid_component_end(chars: &Vec<char>, i: usize) -> (r: Option<usize>)
    requires
        i < chars.len(),
    ensures
        r is Some <==> uid_component_at(chars@, i as int),
        r is Some ==> r->0 == word_end(chars@, i + 4) && i + 4 < r->0 <= chars.len(),
{
    if chars.len() - i <= 4 {
        return None;
    }
    if i > 0 && chars[i - 1] != ',' {
        return None;
    }
    if !uid_prefix_at(chars, i) {
        return None;
    }
    let e = scan_word(chars, i + 4);
    if e > i + 4 && (e == chars.len() || chars[e] == ',') {
        Some(e)
    } else {
        None
    }
}

/// Where the one `uid` component stands, if the characters hold exactly one.
fn sole_uid(chars: &Vec<char>) -> (r: Option<usize>)
    ensures
        r is Some <==> has_one_uid(chars@),
        r is Some ==> uid_component_at(chars@, r->0 as int),
{
    let ghost s = chars@;
    let mut found: Option<usize> = None;
    let mut i: usize = 0;
    while i < chars.len()
        invariant
            i <= chars.len(),
            s == chars@,
            found is None ==> forall|j: int| 0 <= j < i ==> !#[trigger] uid_component_at(s, j),
            found is Some ==> {
                &&& found->0 < i
                &&& uid_component_at(s, found->0 as int)
                &&& forall|j: int|
                    0 <= j < i && j != found->0 ==> !#[trigger] uid_component_at(s, j)
            },
        decreases chars.len() - i,
    {
        match uid_component_end(chars, i) {
            Some(_) => {
                match found {
                    Some(first) => {
                        proof {
                            assert(uid_component_at(s, first as int));
                            assert(uid_component_at(s, i as int));
                            assert(!has_one_uid(s));
                        }
                        return None;
                    },
                    None => {
                        found = Some(i);
                    },
                }
            },
            None => {},
        }
        i += 1;
    }
    proof {
        match found {
            Some(first) => {
                assert forall|j: int| #[trigger] uid_component_at(s, j) implies j == first by {}
                assert(has_one_uid(s));
            },
            None => {
                assert forall|j: int| !#[trigger] uid_component_at(s, j) by {}
                assert(!has_one_uid(s));
            },
        }
    }
    found
}

/// Whether `dn` begins with a `uid=<word>,` component: such a name addresses
/// one user by itself.
pub fn names_user(dn: &str) -> (r: bool)
    ensures
        r == has_leading_uid(dn@),
{
    let chars = to_chars(dn);
    leading_uid_end(&chars).is_some()
}

/// The user identifier of the stored name `dn`: the value of its one `uid`
/// component, wherever it stands. A name that is malformed, or has no such
/// component, or has several, gives the message that none was found.
pub fn extract_uid(dn: &str) -> (r: Result<String, String>)
    ensures
        match r {
            Ok(uid) => uid_of(dn@) == Some(uid@),
            Err(msg) => uid_of(dn@) is None && msg@ == uid_not_found(dn@),
        },
{
    let chars = to_chars(dn);
    if reads_well(&chars) {
        match sole_uid(&chars) {
            Some(at) => {
                let end = scan_word(&chars, at + 4);
                proof {
                    let i = choose|i: int| uid_component_at(dn@, i);
                    assert(uid_component_at(dn@, at as int));
                    assert(i == at);
                }
                return Ok(String::from_str(dn.substring_char(at + 4, end)));
            },
            None => {},
        }
    }
    let mut msg = String::from_str("UID not found in: ");
    msg.append(dn);
    Err(msg)
}

/// Whether `dn` is `uid=<word>,` followed by exactly `base`.
pub fn is_direct_child(dn: &str, base: &str) -> (r: bool)
    ensures
        r == direct_child(dn@, base@),
{
    let chars = to_chars(dn);
    let tail = to_chars(base);
    match leading_uid_end(&chars) {
        Some(e) => {
            let start: usize = e + 1;
            if chars.len() - start != tail.len() {
                return false;
            }
            let mut i: usize = 0;
            while i < tail.len()
                invariant
                    i <= tail.len(),
                    start + tail.len() == chars.len(),
                    start == word_end(chars@, 4) + 1,
                    has_leading_uid(chars@),
                    chars@ == dn@,
                    tail@ == base@,
                    forall|j: int| 0 <= j < i ==> chars@[start + j] == tail@[j],
                decreases tail.len() - i,
            {
                if chars[start + i] != tail[i] {
                    proof {
                        let sub = chars@.subrange(start as int, chars@.len() as int);
                        assert(sub[i as int] == chars@[start + i]);
                        assert(sub != tail@);
                    }
                    return false;
                }
                i += 1;
            }
            proof {
                assert(chars@.subrange(start as int, chars@.len() as int) =~= tail@);
            }
            true
        },
        None => false,
    }
}

} // verus!
