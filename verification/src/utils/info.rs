//! The key-value table of an info packet.
use std::string::FromUtf8Error;
use vstd::prelude::*;
use vstd::slice::{slice_subrange, slice_to_vec};
use vstd::utf8::{decode_utf8, valid_utf8};

use crate::utils::text::{find_byte, lemma_split_at_ascii, scan, text};

verus! {

/// A line without the carriage return that stands before its line feed.
pub open spec fn without_return(line: Seq<u8>) -> Seq<u8> {
    if line.len() > 0 && line.last() == 0x0d {
        line.drop_last()
    } else {
        line
    }
}

/// The table after one more line: a line `key<TAB>value` sets the key, to no
/// value if the value is empty; a line without a tab changes nothing.
pub open spec fn with_line(
    table: Map<Seq<char>, Option<Seq<char>>>,
    line: Seq<u8>,
) -> Map<Seq<char>, Option<Seq<char>>> {
    let tab = find_byte(line, 0x09);
    if tab >= line.len() {
        table
    } else {
        let value = line.skip(tab as int + 1);
        table.insert(
            decode_utf8(line.take(tab as int)),
            if value.len() == 0 {
                None
            } else {
                Some(decode_utf8(value))
            },
        )
    }
}

/// The table after all lines of `s`, in order. A line ends at a line feed,
/// with or without a carriage return before it, or at the end of the text.
pub open spec fn info_table(
    table: Map<Seq<char>, Option<Seq<char>>>,
    s: Seq<u8>,
) -> Map<Seq<char>, Option<Seq<char>>>
    decreases s.len(),
{
    let end = find_byte(s, 0x0a);
    if s.len() == 0 {
        table
    } else if end >= s.len() {
        with_line(table, s)
    } else {
        info_table(with_line(table, without_return(s.take(end as int))), s.skip(end as int + 1))
    }
}

/// What an info packet says: each key with its value, or with none.
///
/// A key occurs at most once in `entries`.
#[derive(Debug)]
pub struct AerospikeInfo {
    pub entries: Vec<(String, Option<String>)>,
}

/// The text of an optional string.
pub open spec fn text_of(value: Option<String>) -> Option<Seq<char>> {
    match value {
        Some(v) => Some(v@),
        None => None,
    }
}

impl View for AerospikeInfo {
    type V = Map<Seq<char>, Option<Seq<char>>>;

    open spec fn view(&self) -> Map<Seq<char>, Option<Seq<char>>> {
        Map::new(
            |k: Seq<char>| exists|i: int| 0 <= i < self.entries@.len() && #[trigger] self.entries@[i].0@ == k,
            |k: Seq<char>| text_of(self.entries@[self.position(k)].1),
        )
    }
}

impl AerospikeInfo {
    /// Some index at which the key stands; it is the only one where `wf` holds.
    pub open spec fn position(&self, k: Seq<char>) -> int {
        choose|i: int| 0 <= i < self.entries@.len() && #[trigger] self.entries@[i].0@ == k
    }

    /// No key occurs twice.
    pub open spec fn wf(&self) -> bool {
        forall|i: int, j: int|
            0 <= i < j < self.entries@.len() ==> #[trigger] self.entries@[i].0@
                != #[trigger] self.entries@[j].0@
    }

    pub fn new() -> (r: AerospikeInfo)
        ensures
            r.wf(),
            r@ == Map::<Seq<char>, Option<Seq<char>>>::empty(),
    {
        let r = AerospikeInfo { entries: Vec::new() };
        assert(r@ =~= Map::<Seq<char>, Option<Seq<char>>>::empty());
        r
    }

    /// The index of the key, if it is in the table.
    fn find(&self, key: &String) -> (r: Option<usize>)
        ensures
            match r {
                Some(i) => i < self.entries@.len() && self.entries@[i as int].0@ == key@,
                None => forall|i: int|
                    0 <= i < self.entries@.len() ==> #[trigger] self.entries@[i].0@ != key@,
            },
    {
        let mut i: usize = 0;
        while i < self.entries.len()
            invariant
                i <= self.entries@.len(),
                forall|j: int| 0 <= j < i ==> #[trigger] self.entries@[j].0@ != key@,
            decreases self.entries@.len() - i,
        {
            if self.entries[i].0 == *key {
                return Some(i);
            }
            i = i + 1;
        }
        None
    }

    /// Sets the value of `key`; a value that it had before is replaced.
    pub fn insert(&mut self, key: String, value: Option<String>)
        requires
            old(self).wf(),
        ensures
            final(self).wf(),
            final(self)@ == old(self)@.insert(key@, text_of(value)),
    {
        match self.find(&key) {
            Some(i) => {
                self.entries.set(i, (key, value));
                proof {
                    let before = old(self).entries@;
                    let after = self.entries@;
                    assert(after[i as int].0@ == key@);
                    assert forall|k: Seq<char>| self@.dom().contains(k) <==> #[trigger] old(
                        self,
                    )@.insert(key@, text_of(value)).dom().contains(k) by {
                        if exists|j: int| 0 <= j < after.len() && #[trigger] after[j].0@ == k {
                            let j = choose|j: int| 0 <= j < after.len() && #[trigger] after[j].0@ == k;
                            assert(before[j].0@ == k || k == key@);
                        }
                        if exists|j: int| 0 <= j < before.len() && #[trigger] before[j].0@ == k {
                            let j = choose|j: int| 0 <= j < before.len() && #[trigger] before[j].0@ == k;
                            assert(after[j].0@ == k);
                        }
                    }
                    assert(self@ =~= old(self)@.insert(key@, text_of(value)));
                }
            },
            None => {
                self.entries.push((key, value));
                proof {
                    let before = old(self).entries@;
                    let after = self.entries@;
                    let n: int = before.len() as int;
                    assert(after[n].0@ == key@);
                    assert forall|k: Seq<char>| self@.dom().contains(k) <==> #[trigger] old(
                        self,
                    )@.insert(key@, text_of(value)).dom().contains(k) by {
                        if exists|j: int| 0 <= j < before.len() && #[trigger] before[j].0@ == k {
                            let j = choose|j: int| 0 <= j < before.len() && #[trigger] before[j].0@ == k;
                            assert(after[j].0@ == k);
                        }
                    }
                    assert(self@ =~= old(self)@.insert(key@, text_of(value)));
                }
            },
        }
    }

    /// The value of `key`: `Some(None)` for a key without a value, `None` for
    /// a key that is not in the table.
    pub fn get(&self, key: &str) -> (r: Option<&Option<String>>)
        requires
            self.wf(),
        ensures
            match r {
                Some(v) => self@.contains_key(key@) && self@[key@] == text_of(*v),
                None => !self@.contains_key(key@),
            },
    {
        match self.find(&key.to_owned()) {
            Some(i) => Some(&self.entries[i].1),
            None => None,
        }
    }

    /// Reads the lines of an info packet into a table; fails exactly when the
    /// bytes are not UTF-8.
    pub fn parse(data: &[u8]) -> (r: Result<AerospikeInfo, FromUtf8Error>)
        ensures
            match r {
                Ok(info) => valid_utf8(data@) && info.wf() && info@ == info_table(
                    Map::empty(),
                    data@,
                ),
                Err(_) => !valid_utf8(data@),
            },
    {
        match String::from_utf8(slice_to_vec(data)) {
            Ok(_) => {},
            Err(err) => return Err(err),
        }
        let mut info = AerospikeInfo::new();
        let mut pos: usize = 0;
        assert(data@.skip(0) =~= data@);
        while pos < data.len()
            invariant
                pos <= data@.len(),
                valid_utf8(data@.skip(pos as int)),
                info.wf(),
                info_table(info@, data@.skip(pos as int)) == info_table(Map::empty(), data@),
            decreases data@.len() - pos,
        {
            let ghost rest = data@.skip(pos as int);
            let end: usize = scan(data, pos, 0x0a);
            if end >= data.len() {
                assert(data@.subrange(pos as int, data@.len() as int) =~= rest);
                info.add_line(slice_subrange(data, pos, data.len()));
                pos = data.len();
                assert(data@.skip(pos as int) =~= Seq::<u8>::empty());
            } else {
                let stop: usize = if end > pos && data[end - 1] == 0x0d {
                    end - 1
                } else {
                    end
                };
                proof {
                    lemma_split_at_ascii(rest, end - pos);
                    let line = rest.take(end - pos);
                    assert(line =~= data@.subrange(pos as int, end as int));
                    if stop < end {
                        lemma_split_at_ascii(line, stop - pos);
                    }
                    assert(data@.subrange(pos as int, stop as int) =~= without_return(line));
                    assert(rest.skip(end - pos + 1) =~= data@.skip(end + 1));
                }
                info.add_line(slice_subrange(data, pos, stop));
                pos = end + 1;
            }
        }
        Ok(info)
    }

    /// Takes one line into the table.
    fn add_line(&mut self, line: &[u8])
        requires
            old(self).wf(),
            valid_utf8(line@),
        ensures
            final(self).wf(),
            final(self)@ == with_line(old(self)@, line@),
    {
        let tab: usize = scan(line, 0, 0x09);
        assert(line@.skip(0) =~= line@);
        if tab < line.len() {
            proof {
                lemma_split_at_ascii(line@, tab as int);
            }
            assert(line@.subrange(0, tab as int) =~= line@.take(tab as int));
            let key = text(slice_subrange(line, 0, tab));
            let value = slice_subrange(line, tab + 1, line.len());
            assert(value@ =~= line@.skip(tab as int + 1));
            if value.len() == 0 {
                self.insert(key, None);
            } else {
                self.insert(key, Some(text(value)));
            }
        }
    }
}

} // verus!
