use vstd::prelude::*;

use crate::text::{chars_of, decimal_string, spec_decimal};

verus! {

/// How the user picks a MIDI port: by its number, or by a part of its name.
#[derive(Clone, Debug, PartialEq, Eq)]
pub enum DeviceSelector {
    Number(usize),
    NameSubstring(String),
}

impl DeviceSelector {
    /// The selector as shown to the user: the number, or the quoted name part.
    pub open spec fn spec_text(&self) -> Seq<char> {
        match self {
            DeviceSelector::Number(n) => spec_decimal(*n as nat),
            DeviceSelector::NameSubstring(s) => seq!['"'] + s@ + seq!['"'],
        }
    }

    /// The selector as shown to the user.
    pub fn to_string(&self) -> (r: String)
        ensures
            r@ == self.spec_text(),
    {
        match self {
            DeviceSelector::Number(n) => decimal_string(*n),
            DeviceSelector::NameSubstring(data) => {
                proof {
                    reveal_strlit("\"");
                }
                let mut r = String::from_str("\"");
                r.append(data.as_str());
                r.append("\"");
                assert(r@ =~= seq!['"'] + data@ + seq!['"']);
                r
            },
        }
    }
}

/// `needle` occurs in `haystack` as a run of consecutive characters.
pub open spec fn spec_contains(haystack: Seq<char>, needle: Seq<char>) -> bool {
    exists|i: int|
        0 <= i && i + needle.len() <= haystack.len() && #[trigger] haystack.subrange(
            i,
            i + needle.len(),
        ) == needle
}

/// Whether `needle` occurs in `haystack` starting at index `i`.
fn occurs_at(haystack: &Vec<char>, needle: &Vec<char>, i: usize) -> (r: bool)
    requires
        i + needle@.len() <= haystack@.len(),
    ensures
        r == (haystack@.subrange(i as int, i + needle@.len()) == needle@),
{
    let hl = haystack.len();
    let mut k: usize = 0;
    while k < needle.len()
        invariant
            hl == haystack@.len(),
            k <= needle@.len(),
            i + needle@.len() <= haystack@.len(),
            forall|q: int| 0 <= q < k ==> haystack@[i + q] == needle@[q],
        decreases needle@.len() - k,
    {
        if haystack[i + k] != needle[k] {
            assert(haystack@.subrange(i as int, i + needle@.len())[k as int] != needle@[k as int]);
            return false;
        }
        k = k + 1;
    }
    assert(haystack@.subrange(i as int, i + needle@.len()) =~= needle@);
    true
}

/// Whether `needle` occurs in `haystack`.
fn str_contains(haystack: &str, needle: &str) -> (r: bool)
    ensures
        r == spec_contains(haystack@, needle@),
{
    let h = chars_of(haystack);
    let nd = chars_of(needle);
    if nd.len() > h.len() {
        return false;
    }
    let last = h.len() - nd.len();
    let mut i: usize = 0;
    while i < last
        invariant
            h@ == haystack@,
            nd@ == needle@,
            last == h@.len() - nd@.len(),
            i <= last,
            forall|q: int| 0 <= q < i ==> #[trigger] h@.subrange(q, q + nd@.len()) != nd@,
        decreases last - i,
    {
        if occurs_at(&h, &nd, i) {
            return true;
        }
        i = i + 1;
    }
    if occurs_at(&h, &nd, last) {
        return true;
    }
    assert forall|q: int| 0 <= q && q + needle@.len() <= haystack@.len() implies #[trigger] haystack@.subrange(
        q,
        q + needle@.len(),
    ) != needle@ by {}
    false
}

/// Port `i`, named `name`, is one that `device` selects.
pub open spec fn port_selected(name: Seq<char>, i: int, device: DeviceSelector) -> bool {
    match device {
        DeviceSelector::Number(n) => i == n,
        DeviceSelector::NameSubstring(s) => spec_contains(name, s@),
    }
}

/// The numbers, in order, of the first `n` ports that `device` selects.
pub open spec fn selected_ports(names: Seq<String>, device: DeviceSelector, n: int) -> Seq<int>
    decreases n,
{
    if n <= 0 {
        Seq::empty()
    } else {
        let rest = selected_ports(names, device, n - 1);
        if port_selected(names[n - 1]@, n - 1, device) {
            rest.push(n - 1)
        } else {
            rest
        }
    }
}

/// The message when no port is selected.
pub open spec fn spec_no_port_message(direction: Seq<char>, device: DeviceSelector) -> Seq<char> {
    "No MIDI "@ + direction + " port matching "@ + device.spec_text()
}

/// The message when several ports are selected.
pub open spec fn spec_many_ports_message(direction: Seq<char>, device: DeviceSelector) -> Seq<
    char,
> {
    "Multiple MIDI "@ + direction + " ports matching "@ + device.spec_text()
}

/// Picks the one port among `port_names` that `device` selects; `direction` ("input" or
/// "output") goes into the error messages.
pub fn find_port(port_names: &Vec<String>, device: &DeviceSelector, direction: &str) -> (r: Result<
    usize,
    String,
>)
    ensures
        ({
            let sel = selected_ports(port_names@, *device, port_names@.len() as int);
            &&& sel.len() == 1 ==> r is Ok && r->Ok_0 == sel[0]
            &&& sel.len() == 0 ==> r is Err && r->Err_0@ == spec_no_port_message(
                direction@,
                *device,
            )
            &&& sel.len() > 1 ==> r is Err && r->Err_0@ == spec_many_ports_message(
                direction@,
                *device,
            )
        }),
{
    let mut count: usize = 0;
    let mut first: usize = 0;
    let mut i: usize = 0;
    while i < port_names.len()
        invariant
            i <= port_names@.len(),
            count == selected_ports(port_names@, *device, i as int).len(),
            count > 0 ==> first == selected_ports(port_names@, *device, i as int)[0],
            count <= i,
        decreases port_names@.len() - i,
    {
        let selected = match device {
            DeviceSelector::Number(number) => i == *number,
            DeviceSelector::NameSubstring(name_substring) => str_contains(
                port_names[i].as_str(),
                name_substring.as_str(),
            ),
        };
        if selected {
            if count == 0 {
                first = i;
            }
            count = count + 1;
        }
        i = i + 1;
    }
    if count == 1 {
        Ok(first)
    } else {
        let mut msg = if count == 0 {
            String::from_str("No MIDI ")
        } else {
            String::from_str("Multiple MIDI ")
        };
        msg.append(direction);
        if count == 0 {
            msg.append(" port matching ");
        } else {
            msg.append(" ports matching ");
        }
        let text = device.to_string();
        msg.append(text.as_str());
        Err(msg)
    }
}

} // verus!
