use vstd::prelude::*;

use crate::channels::{first_index, spec_first_index};
use crate::text::chars_of;

verus! {

/// Where an ABC information field goes among the headers.
#[derive(Clone, Copy, Debug, PartialEq, Eq, Structural, PartialOrd, Ord, Hash)]
pub enum InfoFieldOrder {
    First,
    Second,
    Middle,
    Last,
}

/// The name of an ABC information field (the letter before the colon).
#[derive(Clone, Copy, Debug, PartialEq, Eq, Structural, Hash)]
pub struct OrderedInfoFieldName(pub char);

/// `X` comes first, `T` second and `K` last; the others sit in between.
pub open spec fn spec_field_order(name: char) -> InfoFieldOrder {
    if name == 'X' {
        InfoFieldOrder::First
    } else if name == 'T' {
        InfoFieldOrder::Second
    } else if name == 'K' {
        InfoFieldOrder::Last
    } else {
        InfoFieldOrder::Middle
    }
}

impl OrderedInfoFieldName {
    /// The key that orders field names: their place, then the letter.
    pub fn decorate(&self) -> (r: (InfoFieldOrder, char))
        ensures
            r == (spec_field_order(self.0), self.0),
    {
        match self.0 {
            'X' => (InfoFieldOrder::First, 'X'),
            'T' => (InfoFieldOrder::Second, 'T'),
            'K' => (InfoFieldOrder::Last, 'K'),
            c => (InfoFieldOrder::Middle, c),
        }
    }
}

/// `c` is an ASCII letter.
pub open spec fn is_letter(c: char) -> bool {
    ('A' <= c && c <= 'Z') || ('a' <= c && c <= 'z')
}

/// `c` is a space or a tab.
pub open spec fn is_blank(c: char) -> bool {
    c == ' ' || c == '\t'
}

/// The number of spaces and tabs at the start of `s`.
pub open spec fn spec_blanks(s: Seq<char>) -> nat
    decreases s.len(),
{
    if s.len() > 0 && is_blank(s[0]) {
        1 + spec_blanks(s.skip(1))
    } else {
        0
    }
}

/// The information field line at the start of `s`, if there is one: a letter, a colon,
/// optional spaces and tabs, then the field's text up to a newline. Gives the letter, where
/// the text starts and where the newline stands.
pub open spec fn spec_field_line(s: Seq<char>) -> Option<(char, int, int)> {
    if s.len() >= 2 && is_letter(s[0]) && s[1] == ':' {
        let j = 2 + spec_blanks(s.skip(2)) as int;
        let nl = j + spec_first_index(s.skip(j), '\n') as int;
        if nl < s.len() {
            Some((s[0], j, nl))
        } else {
            None
        }
    } else {
        None
    }
}

/// The information fields at the start of an ABC text, in order, as (letter, text).
pub open spec fn spec_header_fields(s: Seq<char>) -> Seq<(char, Seq<char>)>
    decreases s.len(),
{
    match spec_field_line(s) {
        Some((name, j, nl)) => if 0 <= j <= nl < s.len() {
            seq![(name, s.subrange(j, nl))] + spec_header_fields(s.skip(nl + 1))
        } else {
            Seq::empty()
        },
        None => Seq::empty(),
    }
}

/// The fields as a map from letter to text; a later field replaces an earlier one.
pub open spec fn spec_fields_map(fields: Seq<(char, Seq<char>)>) -> Map<char, Seq<char>>
    decreases fields.len(),
{
    if fields.len() == 0 {
        Map::empty()
    } else {
        spec_fields_map(fields.drop_last()).insert(fields.last().0, fields.last().1)
    }
}

/// The fields with the required ones added where missing: `X: 1`, `T: test tune`, `K: C`.
pub open spec fn spec_with_defaults(m: Map<char, Seq<char>>) -> Map<char, Seq<char>> {
    let m1 = if m.contains_key('X') {
        m
    } else {
        m.insert('X', "1"@)
    };
    let m2 = if m1.contains_key('T') {
        m1
    } else {
        m1.insert('T', "test tune"@)
    };
    if m2.contains_key('K') {
        m2
    } else {
        m2.insert('K', "C"@)
    }
}

/// The rank of a field name: `X`, then `T`, then the others, then `K`.
pub open spec fn spec_rank(c: char) -> int {
    if c == 'X' {
        0
    } else if c == 'T' {
        1
    } else if c == 'K' {
        3
    } else {
        2
    }
}

/// Field name `a` goes before field name `b`.
pub open spec fn spec_goes_before(a: char, b: char) -> bool {
    spec_rank(a) < spec_rank(b) || (spec_rank(a) == spec_rank(b) && (a as u32) < (b as u32))
}

/// A header field, with its name also as text.
pub struct HeaderField {
    pub name: char,
    pub name_text: String,
    pub value: String,
}

/// The fields come in header order, each name once, and the name texts are the names.
pub open spec fn fields_ordered(f: Seq<HeaderField>) -> bool {
    &&& forall|i: int, j: int|
        0 <= i < j < f.len() ==> spec_goes_before((#[trigger] f[i]).name, (#[trigger] f[j]).name)
    &&& forall|i: int| 0 <= i < f.len() ==> (#[trigger] f[i]).name_text@ == seq![f[i].name]
}

/// The fields hold exactly the entries of `m`.
pub open spec fn fields_hold(f: Seq<HeaderField>, m: Map<char, Seq<char>>) -> bool {
    &&& forall|i: int|
        0 <= i < f.len() ==> m.contains_key((#[trigger] f[i]).name) && m[f[i].name] == f[i].value@
    &&& forall|c: char| #[trigger] m.contains_key(c) ==> exists|i: int| 0 <= i < f.len() && (#[trigger] f[i]).name == c
}

/// The header lines `name: value` of the fields, in order.
pub open spec fn spec_render(f: Seq<HeaderField>) -> Seq<char>
    decreases f.len(),
{
    if f.len() == 0 {
        Seq::empty()
    } else {
        spec_render(f.drop_last()) + f.last().name_text@ + ": "@ + f.last().value@ + "\n"@
    }
}

/// Whether field name `a` goes before field name `b`.
fn goes_before(a: char, b: char) -> (r: bool)
    ensures
        r == spec_goes_before(a, b),
{
    let ra: u8 = if a == 'X' {
        0
    } else if a == 'T' {
        1
    } else if a == 'K' {
        3
    } else {
        2
    };
    let rb: u8 = if b == 'X' {
        0
    } else if b == 'T' {
        1
    } else if b == 'K' {
        3
    } else {
        2
    };
    ra < rb || (ra == rb && (a as u32) < (b as u32))
}

/// Sets field `name` to `value`, keeping the fields in header order.
fn set_field(fields: &mut Vec<HeaderField>, name: char, name_text: String, value: String)
    requires
        fields_ordered(old(fields)@),
        name_text@ == seq![name],
    ensures
        fields_ordered(final(fields)@),
        forall|m: Map<char, Seq<char>>|
            fields_hold(old(fields)@, m) ==> #[trigger] fields_hold(final(fields)@, m.insert(name, value@)),
{
    let mut i: usize = 0;
    while i < fields.len() && goes_before(fields[i].name, name)
        invariant
            i <= fields@.len(),
            forall|k: int| 0 <= k < i ==> spec_goes_before((#[trigger] fields@[k]).name, name),
        decreases fields@.len() - i,
    {
        i = i + 1;
    }
    let ghost f0 = fields@;
    let ghost v = value@;
    let replace = i < fields.len() && fields[i].name == name;
    let field = HeaderField { name, name_text, value };
    if replace {
        fields.set(i, field);
    } else {
        fields.insert(i, field);
    }
    proof {
        assert forall|a: int, b: int| 0 <= a < b < fields@.len() implies spec_goes_before(
            (#[trigger] fields@[a]).name,
            (#[trigger] fields@[b]).name,
        ) by {
            if !replace {
                if i < f0.len() && b == i + 1 {
                    assert(f0[i as int].name != name);
                }
            }
        }
        assert forall|m: Map<char, Seq<char>>| fields_hold(f0, m) implies #[trigger] fields_hold(
            fields@,
            m.insert(name, v),
        ) by {
            let m2 = m.insert(name, v);
            assert forall|k: int| 0 <= k < fields@.len() implies m2.contains_key(
                (#[trigger] fields@[k]).name,
            ) && m2[fields@[k].name] == fields@[k].value@ by {
                if k != i {
                    let k0 = if replace || k < i {
                        k
                    } else {
                        k - 1
                    };
                    assert(fields@[k] == f0[k0]);
                    if f0[k0].name == name {
                        if k0 < i {
                            assert(spec_goes_before(f0[k0].name, name));
                        } else if k0 > i {
                            assert(spec_goes_before(f0[i as int].name, f0[k0].name));
                        }
                    }
                }
            }
            assert forall|c: char| #[trigger] m2.contains_key(c) implies exists|k: int|
                0 <= k < fields@.len() && (#[trigger] fields@[k]).name == c by {
                if c == name {
                    assert(fields@[i as int].name == c);
                } else {
                    let k0 = choose|k0: int| 0 <= k0 < f0.len() && (#[trigger] f0[k0]).name == c;
                    if replace {
                        assert(k0 != i);
                        assert(fields@[k0].name == c);
                    } else if k0 < i {
                        assert(fields@[k0].name == c);
                    } else {
                        assert(fields@[k0 + 1].name == c);
                    }
                }
            }
        }
    }
}

/// Whether a field named `c` is among `fields`.
fn has_field(fields: &Vec<HeaderField>, c: char) -> (r: bool)
    ensures
        r == exists|i: int| 0 <= i < fields@.len() && (#[trigger] fields@[i]).name == c,
{
    let mut i: usize = 0;
    while i < fields.len()
        invariant
            i <= fields@.len(),
            forall|k: int| 0 <= k < i ==> (#[trigger] fields@[k]).name != c,
        decreases fields@.len() - i,
    {
        if fields[i].name == c {
            return true;
        }
        i = i + 1;
    }
    false
}

/// Adds field `name: value` where it is missing.
fn add_default(fields: &mut Vec<HeaderField>, name: &str, value: &str, Ghost(m): Ghost<Map<char, Seq<char>>>)
    requires
        fields_ordered(old(fields)@),
        fields_hold(old(fields)@, m),
        name@.len() == 1,
    ensures
        fields_ordered(final(fields)@),
        fields_hold(
            final(fields)@,
            if m.contains_key(name@[0]) {
                m
            } else {
                m.insert(name@[0], value@)
            },
        ),
{
    let c = name.get_char(0);
    if !has_field(fields, c) {
        assert(!m.contains_key(c));
        let name_text = String::from_str(name);
        assert(name_text@ =~= seq![c]);
        set_field(fields, c, name_text, String::from_str(value));
    } else {
        proof {
            let i = choose|i: int| 0 <= i < fields@.len() && (#[trigger] fields@[i]).name == c;
            assert(m.contains_key(fields@[i].name));
        }
    }
}

/// The ABC text with the required header fields put in front: the information fields at its
/// start, with `X: 1`, `T: test tune` and `K: C` added where missing, one `name: value` line
/// each in header order (`X`, `T`, the others by letter, `K`; a later field of the same name
/// replaces an earlier one), followed by the whole text.
pub fn abc_with_required_headers(music: &str) -> (r: String)
    ensures
        exists|f: Seq<HeaderField>|
            fields_ordered(f) && fields_hold(
                f,
                spec_with_defaults(spec_fields_map(spec_header_fields(music@))),
            ) && r@ == spec_render(f) + music@,
{
    let chars = chars_of(music);
    let n = chars.len();
    let mut fields: Vec<HeaderField> = Vec::new();
    let mut pos: usize = 0;
    let ghost mut parsed: Seq<(char, Seq<char>)> = Seq::empty();
    let mut done = false;
    assert(music@.skip(0) == music@);
    assert(Seq::<(char, Seq<char>)>::empty() + spec_header_fields(music@) == spec_header_fields(music@));
    while !done
        invariant
            chars@ == music@,
            n == music@.len(),
            pos <= n,
            fields_ordered(fields@),
            fields_hold(fields@, spec_fields_map(parsed)),
            !done ==> spec_header_fields(music@) == parsed + spec_header_fields(
                music@.skip(pos as int),
            ),
            done ==> spec_header_fields(music@) == parsed,
        decreases (n - pos) as int + (if done {
            0 as int
        } else {
            1 as int
        }),
    {
        let ghost rest = music@.skip(pos as int);
        let starts_field = pos < n && pos + 1 < n && (('A' <= chars[pos] && chars[pos] <= 'Z') || ('a'
            <= chars[pos] && chars[pos] <= 'z')) && chars[pos + 1] == ':';
        if !starts_field {
            assert(spec_field_line(rest) is None);
            assert(parsed + Seq::<(char, Seq<char>)>::empty() == parsed);
            done = true;
        } else {
            let mut j = pos + 2;
            assert(rest.skip(2) =~= music@.subrange(pos + 2, n as int));
            while j < n && (chars[j] == ' ' || chars[j] == '\t')
                invariant
                    chars@ == music@,
                    n == music@.len(),
                    pos + 2 <= j <= n,
                    spec_blanks(rest.skip(2)) == (j - pos - 2) + spec_blanks(
                        music@.subrange(j as int, n as int),
                    ),
                    rest == music@.skip(pos as int),
                    rest.skip(2) =~= music@.subrange(pos + 2, n as int),
                decreases n - j,
            {
                assert(music@.subrange(j as int, n as int).skip(1) =~= music@.subrange(
                    j + 1,
                    n as int,
                ));
                j = j + 1;
            }
            let off = first_index(&chars, j, n, '\n');
            assert(rest.skip(j - pos) =~= music@.subrange(j as int, n as int));
            if j + off < n {
                let name = chars[pos];
                let name_text = String::from_str(music.substring_char(pos, pos + 1));
                assert(name_text@ =~= seq![name]);
                let value = String::from_str(music.substring_char(j, j + off));
                let ghost v = value@;
                set_field(&mut fields, name, name_text, value);
                proof {
                    assert(rest.subrange(j - pos, j + off - pos) =~= v);
                    assert(rest.skip(j + off + 1 - pos) =~= music@.skip(j + off + 1));
                    let parsed_next = parsed.push((name, v));
                    assert(parsed_next.drop_last() == parsed);
                    assert(parsed + spec_header_fields(rest) =~= parsed_next + spec_header_fields(
                        music@.skip(j + off + 1),
                    ));
                    parsed = parsed_next;
                }
                pos = j + off + 1;
            } else {
                assert(spec_field_line(rest) is None);
                assert(parsed + Seq::<(char, Seq<char>)>::empty() == parsed);
                done = true;
            }
        }
    }
    let ghost m0 = spec_fields_map(parsed);
    proof {
        reveal_strlit("X");
        reveal_strlit("T");
        reveal_strlit("K");
    }
    add_default(&mut fields, "X", "1", Ghost(m0));
    let ghost m1 = if m0.contains_key('X') { m0 } else { m0.insert('X', "1"@) };
    add_default(&mut fields, "T", "test tune", Ghost(m1));
    let ghost m2 = if m1.contains_key('T') { m1 } else { m1.insert('T', "test tune"@) };
    add_default(&mut fields, "K", "C", Ghost(m2));
    let mut out = String::new();
    let mut i: usize = 0;
    while i < fields.len()
        invariant
            i <= fields@.len(),
            out@ == spec_render(fields@.take(i as int)),
        decreases fields@.len() - i,
    {
        out.append(fields[i].name_text.as_str());
        out.append(": ");
        out.append(fields[i].value.as_str());
        out.append("\n");
        assert(fields@.take(i + 1).drop_last() == fields@.take(i as int));
        assert(fields@.take(i + 1).last() == fields@[i as int]);
        i = i + 1;
    }
    assert(fields@.take(fields@.len() as int) == fields@);
    out.append(music);
    assert(fields_ordered(fields@));
    out
}

} // verus!
