use vstd::prelude::*;
use crate::bytes::same_bytes;

verus! {

/// One header field: a name and a value.
pub struct Header {
    pub name: Vec<u8>,
    pub value: Vec<u8>,
}

impl View for Header {
    type V = (Seq<u8>, Seq<u8>);

    open spec fn view(&self) -> (Seq<u8>, Seq<u8>) {
        (self.name@, self.value@)
    }
}

/// The names and values of a list of fields.
pub open spec fn pairs(s: Seq<Header>) -> Seq<(Seq<u8>, Seq<u8>)> {
    s.map_values(|h: Header| h@)
}

/// The header fields of a message, by name. A later field of the same name
/// replaces an earlier one.
pub struct HeaderMap {
    pub entries: Vec<Header>,
}

/// The map that a list of fields stands for: each name with its last value.
pub open spec fn entries_map(s: Seq<Header>) -> Map<Seq<u8>, Seq<u8>>
    decreases s.len(),
{
    if s.len() == 0 {
        Map::empty()
    } else {
        entries_map(s.drop_last()).insert(s.last().name@, s.last().value@)
    }
}

impl View for HeaderMap {
    type V = Map<Seq<u8>, Seq<u8>>;

    open spec fn view(&self) -> Map<Seq<u8>, Seq<u8>> {
        entries_map(self.entries@)
    }
}

impl HeaderMap {
    /// A map without fields.
    pub fn new() -> (r: Self)
        ensures
            r@ == Map::<Seq<u8>, Seq<u8>>::empty(),
    {
        HeaderMap { entries: Vec::new() }
    }

    /// Sets the field `name` to `value`.
    pub fn insert(&mut self, name: Vec<u8>, value: Vec<u8>)
        ensures
            final(self)@ == old(self)@.insert(name@, value@),
    {
        self.entries.push(Header { name, value });
        proof {
            assert(self.entries@.drop_last() =~= old(self).entries@);
        }
    }

    /// The value of the field `name`, if the message has one.
    pub fn get(&self, name: &[u8]) -> (r: Option<&Vec<u8>>)
        ensures
            match r {
                Some(v) => self@.contains_key(name@) && self@[name@] == v@,
                None => !self@.contains_key(name@),
            },
    {
        let mut i: usize = self.entries.len();
        proof {
            assert(self.entries@.take(i as int) =~= self.entries@);
        }
        while i > 0
            invariant
                i <= self.entries@.len(),
                self@.contains_key(name@) == entries_map(self.entries@.take(i as int)).contains_key(
                    name@,
                ),
                self@.contains_key(name@) ==> self@[name@] == entries_map(
                    self.entries@.take(i as int),
                )[name@],
            decreases i,
        {
            proof {
                assert(self.entries@.take(i as int).drop_last() =~= self.entries@.take(i - 1));
            }
            if same_bytes(self.entries[i - 1].name.as_slice(), name) {
                return Some(&self.entries[i - 1].value);
            }
            i -= 1;
        }
        None
    }
}

} // verus!
