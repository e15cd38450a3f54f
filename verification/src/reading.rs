//! How what is written is read back: JSON objects, and words.

use vstd::prelude::*;

verus! {

/// Where `c` first stands in `s`; the length of `s` if it does not.
pub open spec fn first_of(s: Seq<char>, c: char) -> int
    decreases s.len(),
{
    if s.len() == 0 || s[0] == c {
        0
    } else {
        1 + first_of(s.drop_first(), c)
    }
}

/// The pieces of `s` between the commas.
pub open spec fn between_commas(s: Seq<char>) -> Seq<Seq<char>>
    decreases s.len(),
{
    if s.len() == 0 {
        seq![seq![]]
    } else {
        let before = between_commas(s.drop_last());
        if s.last() == ',' {
            before.push(seq![])
        } else {
            before.drop_last().push(before.last().push(s.last()))
        }
    }
}

/// What a JSON object holds under a name.
pub enum Value {
    /// A number, as it is written.
    Number(Seq<char>),
    /// A string, by what it stands for.
    Text(Seq<char>),
    /// A list of numbers.
    List(Seq<Seq<char>>),
}

/// A member of a JSON object.
pub struct Member {
    pub name: Seq<char>,
    pub value: Value,
}

/// The JSON string that `s` begins with, and what follows it.
pub open spec fn read_string(s: Seq<char>) -> Option<(Seq<char>, Seq<char>)> {
    if s.len() == 0 || s[0] != '"' {
        None
    } else {
        let end = crate::report::string_end(s.skip(1));
        if end + 1 < s.len() {
            Some((crate::report::unescaped(s.skip(1).take(end)), s.skip(end + 2)))
        } else {
            None
        }
    }
}

/// The value that `s` begins with, and what follows it. A number goes up to
/// the next comma or closing brace.
pub open spec fn read_value(s: Seq<char>) -> Option<(Value, Seq<char>)> {
    if s.len() > 0 && s[0] == '"' {
        match read_string(s) {
            Some((text, rest)) => Some((Value::Text(text), rest)),
            None => None,
        }
    } else if s.len() > 0 && s[0] == '[' {
        let end = first_of(s, ']');
        if end == s.len() {
            None
        } else if end == 1 {
            Some((Value::List(seq![]), s.skip(2)))
        } else {
            Some((Value::List(between_commas(s.subrange(1, end))), s.skip(end + 1)))
        }
    } else {
        let comma = first_of(s, ',');
        let brace = first_of(s, '}');
        let end = if comma < brace {
            comma
        } else {
            brace
        };
        if 0 < end < s.len() {
            Some((Value::Number(s.take(end)), s.skip(end)))
        } else {
            None
        }
    }
}

/// The members that `s` lists, up to a closing brace with nothing behind it.
pub open spec fn read_members(s: Seq<char>) -> Option<Seq<Member>>
    decreases s.len(),
{
    match read_string(s) {
        Some((name, rest)) if rest.len() > 0 && rest[0] == ':' => match read_value(rest.skip(1)) {
            Some((value, rest)) if rest == seq!['}'] => Some(seq![Member { name, value }]),
            Some((value, rest)) if 0 < rest.len() < s.len() && rest[0] == ',' => match read_members(
                rest.skip(1),
            ) {
                Some(members) => Some(seq![Member { name, value }] + members),
                None => None,
            },
            _ => None,
        },
        _ => None,
    }
}

/// The members of the JSON object that `s` is, in turn.
pub open spec fn object_members(s: Seq<char>) -> Option<Seq<Member>> {
    if s.len() > 0 && s[0] == '{' {
        read_members(s.skip(1))
    } else {
        None
    }
}

/// The text can stand as a number: it is not empty and holds no mark of JSON.
pub open spec fn is_bare(s: Seq<char>) -> bool {
    &&& s.len() > 0
    &&& forall|k: int|
        0 <= k < s.len() ==> {
            &&& #[trigger] s[k] != '"'
            &&& s[k] != ','
            &&& s[k] != '['
            &&& s[k] != ']'
            &&& s[k] != '}'
        }
}

spec fn is_plain(m: Member) -> bool {
    match m.value {
        Value::Number(n) => is_bare(n),
        Value::Text(_) => true,
        Value::List(items) => forall|k: int| 0 <= k < items.len() ==> is_bare(#[trigger] items[k]),
    }
}

spec fn string_text(s: Seq<char>) -> Seq<char> {
    seq!['"'] + crate::report::escaped(s) + seq!['"']
}

spec fn value_text(v: Value) -> Seq<char> {
    match v {
        Value::Number(n) => n,
        Value::Text(s) => string_text(s),
        Value::List(items) => seq!['['] + crate::report::comma_joined(items) + seq![']'],
    }
}

spec fn member_text(m: Member) -> Seq<char> {
    string_text(m.name) + seq![':'] + value_text(m.value)
}

spec fn members_text(members: Seq<Member>) -> Seq<char>
    decreases members.len(),
{
    if members.len() == 0 {
        seq![]
    } else if members.len() == 1 {
        member_text(members[0])
    } else {
        member_text(members[0]) + seq![','] + members_text(members.drop_first())
    }
}

/// An object with these members, up to its closing brace.
pub(crate) closed spec fn open_object(members: Seq<Member>) -> Seq<char> {
    seq!['{'] + members_text(members)
}

proof fn lemma_first_of(s: Seq<char>, c: char, rest: Seq<char>)
    requires
        forall|k: int| 0 <= k < s.len() ==> s[k] != c,
    ensures
        rest.len() > 0 && rest[0] == c ==> first_of(s + rest, c) == s.len(),
        first_of(s + rest, c) >= s.len(),
    decreases s.len(),
{
    if s.len() == 0 {
        assert(s + rest =~= rest);
        lemma_first_of_bounds(rest, c);
    } else {
        lemma_first_of(s.drop_first(), c, rest);
        assert((s + rest).drop_first() =~= s.drop_first() + rest);
    }
}

proof fn lemma_first_of_bounds(s: Seq<char>, c: char)
    ensures
        0 <= first_of(s, c) <= s.len(),
    decreases s.len(),
{
    if s.len() > 0 {
        lemma_first_of_bounds(s.drop_first(), c);
    }
}

proof fn lemma_read_string(s: Seq<char>, rest: Seq<char>)
    ensures
        read_string(string_text(s) + rest) == Some((s, rest)),
{
    let inner = crate::report::escaped(s);
    let all = string_text(s) + rest;
    crate::report::law_escaped_text_stays_inside(s, rest);
    crate::report::law_escape_round_trip(s);
    assert(all.skip(1) =~= inner + seq!['"'] + rest);
    assert(all.skip(1).take(inner.len() as int) =~= inner);
    assert(all.skip(inner.len() as int + 2) =~= rest);
}

proof fn lemma_between_commas(items: Seq<Seq<char>>)
    requires
        items.len() > 0,
        forall|k: int| 0 <= k < items.len() ==> is_bare(#[trigger] items[k]),
    ensures
        between_commas(crate::report::comma_joined(items)) == items,
    decreases items.len(),
{
    reveal_strlit(",");
    let last = items.last();
    assert(is_bare(items[items.len() - 1]));
    if items.len() == 1 {
        lemma_piece_grows(seq![], last);
        assert(seq![] + last =~= last);
        assert(between_commas(last) =~= items);
    } else {
        let before = crate::report::comma_joined(items.drop_last());
        assert forall|k: int| 0 <= k < items.drop_last().len() implies is_bare(
            #[trigger] items.drop_last()[k],
        ) by {
            assert(is_bare(items[k]));
        }
        lemma_between_commas(items.drop_last());
        assert((before + ","@).drop_last() =~= before);
        lemma_piece_grows(before + ","@, last);
        assert(between_commas(before + ","@ + last) =~= items);
    }
}

proof fn lemma_piece_grows(before: Seq<char>, piece: Seq<char>)
    requires
        forall|k: int| 0 <= k < piece.len() ==> piece[k] != ',',
    ensures
        between_commas(before).len() > 0,
        between_commas(before + piece) == between_commas(before).drop_last().push(
            between_commas(before).last() + piece,
        ),
    decreases piece.len(), before.len(),
{
    if before.len() > 0 {
        lemma_piece_grows(before.drop_last(), seq![]);
    }
    let b = between_commas(before);
    if piece.len() == 0 {
        assert(before + piece =~= before);
        assert(b.last() + piece =~= b.last());
        assert(b.drop_last().push(b.last()) =~= b);
    } else {
        let shorter = piece.drop_last();
        lemma_piece_grows(before, shorter);
        assert((before + piece).drop_last() =~= before + shorter);
        assert((b.last() + shorter).push(piece.last()) =~= b.last() + piece);
    }
}

proof fn lemma_comma_joined_holds(items: Seq<Seq<char>>, c: char)
    requires
        c != ',',
        forall|k: int, i: int| 0 <= k < items.len() && 0 <= i < items[k].len() ==> items[k][i] != c,
    ensures
        forall|i: int|
            0 <= i < crate::report::comma_joined(items).len() ==> #[trigger]
                crate::report::comma_joined(items)[i] != c,
        items.len() > 0 && items[0].len() > 0 ==> crate::report::comma_joined(items).len() > 0,
    decreases items.len(),
{
    reveal_strlit(",");
    if items.len() > 1 {
        let before = items.drop_last();
        assert forall|k: int, i: int| 0 <= k < before.len() && 0 <= i < before[k].len() implies
            before[k][i] != c by {
            assert(before[k] == items[k]);
        }
        lemma_comma_joined_holds(before, c);
        let front = crate::report::comma_joined(before);
        let all = crate::report::comma_joined(items);
        let last = items[items.len() - 1];
        assert forall|i: int| 0 <= i < all.len() implies #[trigger] all[i] != c by {
            if i < front.len() {
                assert(all[i] == front[i]);
            } else if i > front.len() {
                assert(all[i] == last[i - front.len() - 1]);
            }
        }
    } else if items.len() == 1 {
        assert(crate::report::comma_joined(items) == items[0]);
    }
}

proof fn lemma_read_value(m: Member, rest: Seq<char>)
    requires
        is_plain(m),
        rest.len() > 0,
        rest[0] == ',' || rest[0] == '}',
    ensures
        read_value(value_text(m.value) + rest) == Some((m.value, rest)),
{
    let all = value_text(m.value) + rest;
    match m.value {
        Value::Number(n) => {
            assert(all[0] == n[0]);
            lemma_first_of(n, ',', rest);
            lemma_first_of(n, '}', rest);
            assert(all.take(n.len() as int) =~= n);
            assert(all.skip(n.len() as int) =~= rest);
        },
        Value::Text(s) => {
            lemma_read_string(s, rest);
            assert(all[0] == '"');
        },
        Value::List(items) => {
            let inner = crate::report::comma_joined(items);
            let tail = seq![']'] + rest;
            lemma_comma_joined_holds(items, ']');
            let head = seq!['['] + inner;
            assert(all =~= head + tail);
            lemma_first_of(head, ']', tail);
            if items.len() == 0 {
                assert(all.skip(2) =~= rest);
                assert(items =~= seq![]);
            } else {
                assert(is_bare(items[0]));
                lemma_between_commas(items);
                assert(all.subrange(1, head.len() as int) =~= inner);
                assert(all.skip(head.len() as int + 1) =~= rest);
            }
        },
    }
}

proof fn lemma_read_members(members: Seq<Member>)
    requires
        members.len() > 0,
        forall|k: int| 0 <= k < members.len() ==> is_plain(#[trigger] members[k]),
    ensures
        read_members(members_text(members) + seq!['}']) == Some(members),
    decreases members.len(),
{
    let m = members[0];
    let rest = if members.len() == 1 {
        seq!['}']
    } else {
        seq![','] + (members_text(members.drop_first()) + seq!['}'])
    };
    let all = members_text(members) + seq!['}'];
    let behind = seq![':'] + (value_text(m.value) + rest);
    assert(is_plain(members[0]));
    assert(all =~= string_text(m.name) + behind);
    lemma_read_string(m.name, behind);
    assert(behind.skip(1) =~= value_text(m.value) + rest);
    lemma_read_value(m, rest);
    if members.len() == 1 {
        assert(seq![m] =~= members);
    } else {
        assert forall|k: int| 0 <= k < members.drop_first().len() implies is_plain(
            #[trigger] members.drop_first()[k],
        ) by {
            assert(is_plain(members[k + 1]));
        }
        lemma_read_members(members.drop_first());
        assert(rest.skip(1) =~= members_text(members.drop_first()) + seq!['}']);
        assert(seq![m] + members.drop_first() =~= members);
        assert(rest[0] == ',');
        assert(rest != seq!['}']);
    }
}

proof fn lemma_one_more_member(members: Seq<Member>, m: Member)
    requires
        members.len() > 0,
    ensures
        members_text(members.push(m)) == members_text(members) + seq![','] + member_text(m),
    decreases members.len(),
{
    let more = members.push(m);
    assert(more.drop_first() =~= members.drop_first().push(m));
    if members.len() == 1 {
        reveal_with_fuel(members_text, 2);
        assert(more.drop_first() =~= seq![m]);
    } else {
        lemma_one_more_member(members.drop_first(), m);
        assert(members_text(more) =~= members_text(members) + seq![','] + member_text(m));
    }
}

/// The object is complete with its closing brace.
pub(crate) proof fn lemma_object(members: Seq<Member>)
    requires
        members.len() > 0,
        forall|k: int|
            0 <= k < members.len() ==> match (#[trigger] members[k]).value {
                Value::Number(n) => is_bare(n),
                Value::Text(_) => true,
                Value::List(items) => forall|i: int|
                    0 <= i < items.len() ==> is_bare(#[trigger] items[i]),
            },
    ensures
        object_members(open_object(members) + seq!['}']) == Some(members),
{
    let all = open_object(members) + seq!['}'];
    assert forall|k: int| 0 <= k < members.len() implies is_plain(#[trigger] members[k]) by {}
    lemma_read_members(members);
    assert(all.skip(1) =~= members_text(members) + seq!['}']);
}

/// The first member of an object, whose value stands as it is.
pub(crate) proof fn lemma_first_member(name: Seq<char>, n: Seq<char>)
    requires
        crate::text::free_of(name, '\\'),
        crate::text::free_of(name, '"'),
    ensures
        seq!['{', '"'] + name + seq!['"', ':'] + n == open_object(
            seq![Member { name, value: Value::Number(n) }],
        ),
{
    crate::report::lemma_escaped_plain(name);
    let m = Member { name, value: Value::Number(n) };
    assert(seq!['{', '"'] + name + seq!['"', ':'] + n =~= seq!['{'] + member_text(m));
}

/// One more member, whose value stands as it is.
pub(crate) proof fn lemma_next_number(members: Seq<Member>, name: Seq<char>, n: Seq<char>)
    requires
        members.len() > 0,
        crate::text::free_of(name, '\\'),
        crate::text::free_of(name, '"'),
    ensures
        open_object(members) + (seq![',', '"'] + name + seq!['"', ':']) + n == open_object(
            members.push(Member { name, value: Value::Number(n) }),
        ),
{
    crate::report::lemma_escaped_plain(name);
    let m = Member { name, value: Value::Number(n) };
    lemma_one_more_member(members, m);
    assert(open_object(members) + (seq![',', '"'] + name + seq!['"', ':']) + n =~= open_object(
        members.push(m),
    ));
}

/// One more member, whose value is a string. What follows begins with the
/// quotation mark that ends it.
pub(crate) proof fn lemma_next_text(
    members: Seq<Member>,
    name: Seq<char>,
    text: Seq<char>,
    rest: Seq<char>,
)
    requires
        members.len() > 0,
        crate::text::free_of(name, '\\'),
        crate::text::free_of(name, '"'),
    ensures
        open_object(members) + (seq![',', '"'] + name + seq!['"', ':', '"'])
            + crate::report::escaped(text) + (seq!['"'] + rest) == open_object(
            members.push(Member { name, value: Value::Text(text) }),
        ) + rest,
{
    crate::report::lemma_escaped_plain(name);
    let m = Member { name, value: Value::Text(text) };
    lemma_one_more_member(members, m);
    assert(open_object(members) + (seq![',', '"'] + name + seq!['"', ':', '"'])
        + crate::report::escaped(text) + (seq!['"'] + rest) =~= open_object(members.push(m)) + rest);
}

/// One more member, whose value is a list. What follows begins with the
/// bracket that ends it.
pub(crate) proof fn lemma_next_list(
    members: Seq<Member>,
    name: Seq<char>,
    items: Seq<Seq<char>>,
    rest: Seq<char>,
)
    requires
        members.len() > 0,
        crate::text::free_of(name, '\\'),
        crate::text::free_of(name, '"'),
    ensures
        open_object(members) + (seq![',', '"'] + name + seq!['"', ':', '['])
            + crate::report::comma_joined(items) + (seq![']'] + rest) == open_object(
            members.push(Member { name, value: Value::List(items) }),
        ) + rest,
{
    crate::report::lemma_escaped_plain(name);
    let m = Member { name, value: Value::List(items) };
    lemma_one_more_member(members, m);
    assert(open_object(members) + (seq![',', '"'] + name + seq!['"', ':', '['])
        + crate::report::comma_joined(items) + (seq![']'] + rest) =~= open_object(members.push(m))
        + rest);
}

/// The words of `s`: what stands between the spaces. The end of a line counts
/// as a word of its own.
#[verifier::opaque]
pub open spec fn words(s: Seq<char>) -> Seq<Seq<char>>
    decreases s.len(),
{
    if s.len() == 0 {
        seq![seq![]]
    } else {
        let before = words(s.drop_last());
        if s.last() == ' ' {
            before.push(seq![])
        } else if s.last() == '\n' {
            before.push(seq!['\n']).push(seq![])
        } else {
            before.drop_last().push(before.last().push(s.last()))
        }
    }
}

/// The text is one word.
#[verifier::opaque]
pub open spec fn is_word(s: Seq<char>) -> bool {
    forall|k: int| 0 <= k < s.len() ==> #[trigger] s[k] != ' ' && s[k] != '\n'
}

/// The words of two texts, one behind the other: the last one of the first and
/// the first one of the second become one.
pub(crate) open spec fn run_together(a: Seq<Seq<char>>, b: Seq<Seq<char>>) -> Seq<Seq<char>> {
    a.drop_last().push(a.last() + b[0]) + b.drop_first()
}

pub(crate) proof fn lemma_words_run_together(a: Seq<char>, b: Seq<char>)
    ensures
        words(a).len() > 0,
        words(b).len() > 0,
        words(a + b) == run_together(words(a), words(b)),
    decreases b.len(), a.len(),
{
    reveal(words);
    if a.len() > 0 {
        lemma_words_run_together(a.drop_last(), seq![]);
    }
    if b.len() == 0 {
        assert(a + b =~= a);
        assert(words(a).last() + b =~= words(a).last());
        assert(run_together(words(a), words(b)) =~= words(a));
    } else {
        let shorter = b.drop_last();
        lemma_words_run_together(a, shorter);
        assert((a + b).drop_last() =~= a + shorter);
        let x = words(a);
        let y = words(shorter);
        let c = b.last();
        if c == ' ' || c == '\n' {
            assert(words(a + b) =~= run_together(x, words(b)));
        } else if y.len() == 1 {
            assert((x.last() + y[0]).push(c) =~= x.last() + y[0].push(c));
            assert(words(a + b) =~= run_together(x, words(b)));
        } else {
            assert(words(a + b) =~= run_together(x, words(b)));
        }
    }
}

pub(crate) proof fn lemma_one_word(s: Seq<char>)
    requires
        is_word(s),
    ensures
        words(s) == seq![s],
    decreases s.len(),
{
    reveal(words);
    reveal(is_word);
    if s.len() > 0 {
        assert(is_word(s.drop_last())) by {
            assert forall|k: int| 0 <= k < s.drop_last().len() implies #[trigger] s.drop_last()[k]
                != ' ' && s.drop_last()[k] != '\n' by {
                assert(s.drop_last()[k] == s[k]);
            }
        }
        lemma_one_word(s.drop_last());
        assert(s[s.len() - 1] == s.last());
        assert(s.drop_last().push(s.last()) =~= s);
        assert(words(s) =~= seq![s]);
    } else {
        assert(s =~= seq![]);
    }
}

/// One more word behind a space.
pub(crate) open spec fn spaced(s: Seq<char>, word: Seq<char>) -> Seq<char> {
    s + seq![' '] + word
}

/// One more word behind the end of a line.
pub(crate) open spec fn lined(s: Seq<char>, word: Seq<char>) -> Seq<char> {
    s + seq!['\n'] + word
}

pub(crate) proof fn lemma_spaced(s: Seq<char>, word: Seq<char>)
    requires
        is_word(word),
    ensures
        words(spaced(s, word)) == words(s).push(word),
{
    reveal(words);
    let t = s + seq![' '];
    assert(t.drop_last() =~= s);
    lemma_words_run_together(t, word);
    lemma_one_word(word);
    assert(seq![] + word =~= word);
    assert(words(spaced(s, word)) =~= words(s).push(word));
}

pub(crate) proof fn lemma_lined(s: Seq<char>, word: Seq<char>)
    requires
        is_word(word),
    ensures
        words(lined(s, word)) == words(s).push(seq!['\n']).push(word),
{
    reveal(words);
    let t = s + seq!['\n'];
    assert(t.drop_last() =~= s);
    lemma_words_run_together(t, word);
    lemma_one_word(word);
    assert(seq![] + word =~= word);
    assert(words(lined(s, word)) =~= words(s).push(seq!['\n']).push(word));
}

} // verus!
