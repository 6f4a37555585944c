//! The JSON form of a YAML value, as the JSON library builds it from the parsed value: its
//! compact text, or why the value has none.
use vstd::prelude::*;
use crate::apply::{join, views};
use crate::config::{key_before, key_less};
use crate::numbers::{decimal, decimal_chars, signed_decimal, signed_decimal_chars};
use crate::text::{chars_equal, chars_of, push_all, string_chars};
use crate::yaml::{YamlNumber, YamlValue};

verus! {

/// A lowercase hexadecimal digit.
pub open spec fn hex_digit(d: nat) -> char {
    if d < 10 {
        (d + 48) as char
    } else {
        (d + 87) as char
    }
}

/// How one character is written inside a JSON string: `"` and `\` after a backslash, the
/// control characters with a short escape where JSON has one and as `\u00XX` otherwise, every
/// other character as itself.
pub open spec fn json_escape(c: char) -> Seq<char> {
    if c == '"' {
        seq!['\\', '"']
    } else if c == '\\' {
        seq!['\\', '\\']
    } else if c == '\u{8}' {
        seq!['\\', 'b']
    } else if c == '\u{c}' {
        seq!['\\', 'f']
    } else if c == '\n' {
        seq!['\\', 'n']
    } else if c == '\r' {
        seq!['\\', 'r']
    } else if c == '\t' {
        seq!['\\', 't']
    } else if (c as u32) < 32 {
        seq!['\\', 'u', '0', '0', hex_digit((c as u32 / 16) as nat), hex_digit((c as u32 % 16) as nat)]
    } else {
        seq![c]
    }
}

/// The characters of a text, each escaped for a JSON string.
pub open spec fn json_escaped(s: Seq<char>) -> Seq<char>
    decreases s.len(),
{
    if s.len() == 0 {
        Seq::<char>::empty()
    } else {
        json_escaped(s.drop_last()) + json_escape(s.last())
    }
}

/// A text as a JSON string.
pub open spec fn json_string(s: Seq<char>) -> Seq<char> {
    seq!['"'] + json_escaped(s) + seq!['"']
}

/// A YAML number as JSON: an integer in decimal, a finite float as its JSON number text, and
/// a float that is not finite as `null`.
pub open spec fn number_json(n: YamlNumber) -> Seq<char> {
    match n {
        YamlNumber::PosInt(u) => decimal(u as nat),
        YamlNumber::NegInt(i) => signed_decimal(i as int),
        YamlNumber::Float(f) => match f.json_text {
            Some(t) => t@,
            None => "null"@,
        },
    }
}

/// The error text of a mapping key that JSON cannot hold.
pub open spec fn key_error() -> Seq<char> {
    "key must be a string"@
}

/// The error text of a float mapping key that is not finite.
pub open spec fn float_key_error() -> Seq<char> {
    "float key must be finite (got NaN or +/-inf)"@
}

/// A mapping key as a JSON object key: a string as itself, a boolean or an integer as its
/// text, a finite float as its JSON number text; any other key is refused.
pub open spec fn key_json(k: YamlValue) -> Result<Seq<char>, Seq<char>> {
    match k {
        YamlValue::Bool(b) => Ok(
            if b {
                "true"@
            } else {
                "false"@
            },
        ),
        YamlValue::Number(YamlNumber::PosInt(u)) => Ok(decimal(u as nat)),
        YamlValue::Number(YamlNumber::NegInt(i)) => Ok(signed_decimal(i as int)),
        YamlValue::Number(YamlNumber::Float(f)) => match f.json_text {
            Some(t) => Ok(t@),
            None => Err(float_key_error()),
        },
        YamlValue::String(s) => Ok(s@),
        _ => Err(key_error()),
    }
}

/// An object's entries after one more is inserted: kept in key order, a key already present
/// taking the new value.
pub open spec fn map_insert(m: Seq<(Seq<char>, Seq<char>)>, k: Seq<char>, t: Seq<char>) -> Seq<
    (Seq<char>, Seq<char>),
>
    decreases m.len(),
{
    if m.len() == 0 {
        seq![(k, t)]
    } else if m[0].0 == k {
        seq![(k, t)] + m.drop_first()
    } else if key_less(k, m[0].0) {
        seq![(k, t)] + m
    } else {
        seq![m[0]] + map_insert(m.drop_first(), k, t)
    }
}

/// One object entry as JSON text.
pub open spec fn entry_json(e: (Seq<char>, Seq<char>)) -> Seq<char> {
    json_string(e.0) + seq![':'] + e.1
}

/// The JSON text of an object with the given entries.
pub open spec fn object_json(m: Seq<(Seq<char>, Seq<char>)>) -> Seq<char> {
    seq!['{'] + join(","@, m.map_values(|e: (Seq<char>, Seq<char>)| entry_json(e))) + seq!['}']
}

/// The JSON text of an array with the given items.
pub open spec fn array_json(items: Seq<Seq<char>>) -> Seq<char> {
    seq!['['] + join(","@, items) + seq![']']
}

/// The JSON form of a YAML value: null, booleans, numbers and strings as themselves; a
/// sequence as an array; a mapping as an object whose entries are in key order (a repeated key
/// keeping its last value); a tagged value as an object with the tag as its one key. The
/// error is the first key, in order, that JSON cannot hold.
pub open spec fn json_of(v: YamlValue) -> Result<Seq<char>, Seq<char>>
    decreases v,
{
    match v {
        YamlValue::Null => Ok("null"@),
        YamlValue::Bool(b) => Ok(
            if b {
                "true"@
            } else {
                "false"@
            },
        ),
        YamlValue::Number(n) => Ok(number_json(n)),
        YamlValue::String(s) => Ok(json_string(s@)),
        YamlValue::Sequence(items, _) => match json_items(items@) {
            Ok(ts) => Ok(array_json(ts)),
            Err(e) => Err(e),
        },
        YamlValue::Mapping(entries, _) => match json_entries(entries@) {
            Ok(m) => Ok(object_json(m)),
            Err(e) => Err(e),
        },
        YamlValue::Tagged(inner, tag, _) => match json_of(*inner) {
            Ok(t) => Ok(object_json(seq![(tag@, t)])),
            Err(e) => Err(e),
        },
    }
}

/// The JSON forms of the items of a sequence, or the first error.
pub open spec fn json_items(s: Seq<YamlValue>) -> Result<Seq<Seq<char>>, Seq<char>>
    decreases s,
{
    if s.len() == 0 {
        Ok(Seq::<Seq<char>>::empty())
    } else {
        match json_items(s.drop_last()) {
            Err(e) => Err(e),
            Ok(ts) => match json_of(s.last()) {
                Ok(t) => Ok(ts.push(t)),
                Err(e) => Err(e),
            },
        }
    }
}

/// The JSON object entries of a mapping's entries, or the first error.
pub open spec fn json_entries(s: Seq<(YamlValue, YamlValue)>) -> Result<Seq<(Seq<char>, Seq<char>)>, Seq<char>>
    decreases s,
{
    if s.len() == 0 {
        Ok(Seq::<(Seq<char>, Seq<char>)>::empty())
    } else {
        match json_entries(s.drop_last()) {
            Err(e) => Err(e),
            Ok(m) => match key_json(s.last().0) {
                Err(e) => Err(e),
                Ok(k) => match json_of(s.last().1) {
                    Ok(t) => Ok(map_insert(m, k, t)),
                    Err(e) => Err(e),
                },
            },
        }
    }
}

/// The views of a list of JSON results.
pub open spec fn result_view(r: Result<Vec<char>, Vec<char>>) -> Result<Seq<char>, Seq<char>> {
    match r {
        Ok(a) => Ok(a@),
        Err(e) => Err(e@),
    }
}

/// The views of object entries.
pub open spec fn pair_views(m: Seq<(Vec<char>, Vec<char>)>) -> Seq<(Seq<char>, Seq<char>)> {
    m.map_values(|p: (Vec<char>, Vec<char>)| (p.0@, p.1@))
}

fn hex(d: u32) -> (c: char)
    requires
        d < 16,
    ensures
        c == hex_digit(d as nat),
{
    let b: u8 = if d < 10 {
        (d as u8) + 48
    } else {
        (d as u8) + 87
    };
    let c = b as char;
    assert(c as u32 == b);
    c
}

fn push_escaped(out: &mut Vec<char>, c: char)
    ensures
        final(out)@ == old(out)@ + json_escape(c),
{
    let ghost start = out@;
    if c == '"' {
        out.push('\\');
        out.push('"');
    } else if c == '\\' {
        out.push('\\');
        out.push('\\');
    } else if c == '\u{8}' {
        out.push('\\');
        out.push('b');
    } else if c == '\u{c}' {
        out.push('\\');
        out.push('f');
    } else if c == '\n' {
        out.push('\\');
        out.push('n');
    } else if c == '\r' {
        out.push('\\');
        out.push('r');
    } else if c == '\t' {
        out.push('\\');
        out.push('t');
    } else if (c as u32) < 32 {
        let u = c as u32;
        out.push('\\');
        out.push('u');
        out.push('0');
        out.push('0');
        out.push(hex(u / 16));
        out.push(hex(u % 16));
    } else {
        out.push(c);
    }
    assert(out@ =~= start + json_escape(c));
}

/// A text as a JSON string; see `json_string`.
pub fn json_string_chars(s: &Vec<char>) -> (r: Vec<char>)
    ensures
        r@ == json_string(s@),
{
    let mut out: Vec<char> = Vec::new();
    out.push('"');
    for i in 0..s.len()
        invariant
            out@ == seq!['"'] + json_escaped(s@.take(i as int)),
    {
        assert(s@.take(i + 1).drop_last() =~= s@.take(i as int));
        push_escaped(&mut out, s[i]);
        assert(out@ =~= seq!['"'] + json_escaped(s@.take(i + 1)));
    }
    assert(s@.take(s.len() as int) =~= s@);
    out.push('"');
    assert(out@ =~= json_string(s@));
    out
}

/// The items joined by `,`.
fn join_plain(items: &Vec<Vec<char>>) -> (r: Vec<char>)
    ensures
        r@ == join(","@, views(items@)),
{
    let ghost all = views(items@);
    let mut out: Vec<char> = Vec::new();
    for i in 0..items.len()
        invariant
            all == views(items@),
            out@ == join(","@, all.take(i as int)),
    {
        proof {
            assert(all.take(i + 1).drop_last() =~= all.take(i as int));
            if i == 0 {
                assert(all.take(1) =~= seq![all[0]]);
            }
        }
        if i > 0 {
            out.push(',');
        }
        push_all(&mut out, &items[i]);
        proof {
            reveal_strlit(",");
            if i == 0 {
                assert(out@ =~= all[0]);
            } else {
                assert(out@ =~= join(","@, all.take(i as int)) + ","@ + all[i as int]);
            }
        }
    }
    assert(all.take(items.len() as int) =~= all);
    out
}

fn number_chars(n: &YamlNumber) -> (r: Vec<char>)
    ensures
        r@ == number_json(*n),
{
    match n {
        YamlNumber::PosInt(u) => decimal_chars(*u),
        YamlNumber::NegInt(i) => signed_decimal_chars(*i),
        YamlNumber::Float(f) => match &f.json_text {
            Some(t) => string_chars(t),
            None => chars_of("null"),
        },
    }
}

fn key_chars(k: &YamlValue) -> (r: Result<Vec<char>, Vec<char>>)
    ensures
        result_view(r) == key_json(*k),
{
    match k {
        YamlValue::Bool(b) => Ok(
            if *b {
                chars_of("true")
            } else {
                chars_of("false")
            },
        ),
        YamlValue::Number(YamlNumber::PosInt(u)) => Ok(decimal_chars(*u)),
        YamlValue::Number(YamlNumber::NegInt(i)) => Ok(signed_decimal_chars(*i)),
        YamlValue::Number(YamlNumber::Float(f)) => match &f.json_text {
            Some(t) => Ok(string_chars(t)),
            None => Err(chars_of("float key must be finite (got NaN or +/-inf)")),
        },
        YamlValue::String(s) => Ok(string_chars(s)),
        _ => Err(chars_of("key must be a string")),
    }
}

/// The entries after inserting one more; see `map_insert`.
fn insert_entry(m: &Vec<(Vec<char>, Vec<char>)>, k: Vec<char>, t: Vec<char>) -> (r: Vec<(Vec<char>, Vec<char>)>)
    ensures
        pair_views(r@) == map_insert(pair_views(m@), k@, t@),
{
    let ghost pm = pair_views(m@);
    let ghost kv = k@;
    let ghost tv = t@;
    let mut out: Vec<(Vec<char>, Vec<char>)> = Vec::new();
    let mut j: usize = 0;
    let mut placed = false;
    let mut entry: Option<(Vec<char>, Vec<char>)> = Some((k, t));
    assert(pm.skip(0) =~= pm);
    while j < m.len()
        invariant
            j <= m.len(),
            pm == pair_views(m@),
            placed <==> entry is None,
            entry matches Some(e) ==> e.0@ == kv && e.1@ == tv,
            map_insert(pm, kv, tv) == pair_views(out@) + if placed {
                pm.skip(j as int)
            } else {
                map_insert(pm.skip(j as int), kv, tv)
            },
        decreases m.len() - j + if placed { 0int } else { 1int },
    {
        let ghost rest = pm.skip(j as int);
        assert(rest[0] == pm[j as int]);
        assert(rest.drop_first() =~= pm.skip(j + 1));
        assert(pm[j as int] == (m@[j as int].0@, m@[j as int].1@));
        let ghost before = pair_views(out@);
        if placed {
            out.push((m[j].0.clone(), m[j].1.clone()));
            assert(pair_views(out@) =~= before.push(pm[j as int]));
            assert(rest =~= seq![pm[j as int]] + pm.skip(j + 1));
            j = j + 1;
        } else {
            let e = entry.take().unwrap();
            if chars_equal(&m[j].0, &e.0) {
                out.push(e);
                placed = true;
                assert(pair_views(out@) =~= before.push((kv, tv)));
                j = j + 1;
            } else if key_before(&e.0, &m[j].0) {
                out.push(e);
                placed = true;
                assert(pair_views(out@) =~= before.push((kv, tv)));
            } else {
                out.push((m[j].0.clone(), m[j].1.clone()));
                entry = Some(e);
                assert(pair_views(out@) =~= before.push(pm[j as int]));
                j = j + 1;
            }
        }
    }
    if !placed {
        let e = entry.take().unwrap();
        let ghost before = pair_views(out@);
        out.push(e);
        assert(pair_views(out@) =~= before.push((kv, tv)));
    }
    assert(pm.skip(m.len() as int) =~= Seq::<(Seq<char>, Seq<char>)>::empty());
    assert(pair_views(out@) =~= map_insert(pm, kv, tv));
    out
}

fn object_chars(m: &Vec<(Vec<char>, Vec<char>)>) -> (r: Vec<char>)
    ensures
        r@ == object_json(pair_views(m@)),
{
    let mut parts: Vec<Vec<char>> = Vec::new();
    for i in 0..m.len()
        invariant
            parts@.len() == i,
            forall|k: int| 0 <= k < i ==> #[trigger] parts@[k]@ == entry_json(pair_views(m@)[k]),
    {
        let mut e = json_string_chars(&m[i].0);
        e.push(':');
        push_all(&mut e, &m[i].1);
        assert(e@ =~= entry_json(pair_views(m@)[i as int]));
        parts.push(e);
    }
    assert(views(parts@) =~= pair_views(m@).map_values(|e: (Seq<char>, Seq<char>)| entry_json(e)));
    let mut out: Vec<char> = Vec::new();
    out.push('{');
    push_all(&mut out, &join_plain(&parts));
    out.push('}');
    assert(out@ =~= object_json(pair_views(m@)));
    out
}

proof fn lemma_items_error(s: Seq<YamlValue>, k: int)
    requires
        0 <= k <= s.len(),
        json_items(s.take(k)) is Err,
    ensures
        json_items(s) == json_items(s.take(k)),
    decreases s.len() - k,
{
    if k < s.len() {
        assert(s.take(k + 1).drop_last() =~= s.take(k));
        lemma_items_error(s, k + 1);
    } else {
        assert(s.take(k) =~= s);
    }
}

proof fn lemma_entries_error(s: Seq<(YamlValue, YamlValue)>, k: int)
    requires
        0 <= k <= s.len(),
        json_entries(s.take(k)) is Err,
    ensures
        json_entries(s) == json_entries(s.take(k)),
    decreases s.len() - k,
{
    if k < s.len() {
        assert(s.take(k + 1).drop_last() =~= s.take(k));
        lemma_entries_error(s, k + 1);
    } else {
        assert(s.take(k) =~= s);
    }
}

/// The JSON form of a YAML value; see `json_of`.
#[verifier::loop_isolation(false)]
pub fn json_text(v: &YamlValue) -> (r: Result<Vec<char>, Vec<char>>)
    ensures
        result_view(r) == json_of(*v),
    decreases v,
{
    match v {
        YamlValue::Null => Ok(chars_of("null")),
        YamlValue::Bool(b) => Ok(
            if *b {
                chars_of("true")
            } else {
                chars_of("false")
            },
        ),
        YamlValue::Number(n) => Ok(number_chars(n)),
        YamlValue::String(s) => Ok(json_string_chars(&string_chars(s))),
        YamlValue::Sequence(items, _) => {
            let mut parts: Vec<Vec<char>> = Vec::new();
            assert(items@.take(0) =~= Seq::<YamlValue>::empty());
            assert(views(parts@) =~= Seq::<Seq<char>>::empty());
            for i in 0..items.len()
                invariant
                    json_items(items@.take(i as int)) == Ok::<Seq<Seq<char>>, Seq<char>>(views(parts@)),
            {
                assert(items@.take(i + 1).drop_last() =~= items@.take(i as int));
                assert(items@.take(i + 1).last() == items@[i as int]);
                proof {
                    assert(decreases_to!(*v => *items));
                    assert(decreases_to!(*items => items@));
                    assert(decreases_to!(items@ => items@[i as int]));
                }
                match json_text(&items[i]) {
                    Ok(t) => {
                        let ghost before = views(parts@);
                        parts.push(t);
                        assert(views(parts@) =~= before.push(t@));
                    },
                    Err(e) => {
                        proof {
                            lemma_items_error(items@, i + 1);
                        }
                        return Err(e);
                    },
                }
            }
            assert(items@.take(items.len() as int) =~= items@);
            let mut out: Vec<char> = Vec::new();
            out.push('[');
            push_all(&mut out, &join_plain(&parts));
            out.push(']');
            assert(out@ =~= array_json(views(parts@)));
            Ok(out)
        },
        YamlValue::Mapping(entries, _) => {
            let mut m: Vec<(Vec<char>, Vec<char>)> = Vec::new();
            assert(entries@.take(0) =~= Seq::<(YamlValue, YamlValue)>::empty());
            assert(pair_views(m@) =~= Seq::<(Seq<char>, Seq<char>)>::empty());
            for i in 0..entries.len()
                invariant
                    json_entries(entries@.take(i as int)) == Ok::<Seq<(Seq<char>, Seq<char>)>, Seq<char>>(
                        pair_views(m@),
                    ),
            {
                assert(entries@.take(i + 1).drop_last() =~= entries@.take(i as int));
                assert(entries@.take(i + 1).last() == entries@[i as int]);
                proof {
                    assert(decreases_to!(*v => *entries));
                    assert(decreases_to!(*entries => entries@));
                    assert(decreases_to!(entries@ => entries@[i as int]));
                    assert(decreases_to!(entries@[i as int] => entries@[i as int].1));
                }
                match key_chars(&entries[i].0) {
                    Err(e) => {
                        proof {
                            lemma_entries_error(entries@, i + 1);
                        }
                        return Err(e);
                    },
                    Ok(k) => match json_text(&entries[i].1) {
                        Err(e) => {
                            proof {
                                lemma_entries_error(entries@, i + 1);
                            }
                            return Err(e);
                        },
                        Ok(t) => {
                            m = insert_entry(&m, k, t);
                        },
                    },
                }
            }
            assert(entries@.take(entries.len() as int) =~= entries@);
            Ok(object_chars(&m))
        },
        YamlValue::Tagged(inner, tag, _) => match json_text(inner) {
            Ok(t) => {
                let one = vec![(string_chars(tag), t)];
                assert(pair_views(one@) =~= seq![(tag@, t@)]);
                Ok(object_chars(&one))
            },
            Err(e) => Err(e),
        },
    }
}

} // verus!
