//! Reply sentences of the RouterOS API: attribute words, the attribute table of one
//! sentence, and the reader that turns the inbound word stream into sentences.
use crate::text::{chars_of, find_char, str_eq, substring};
use vstd::prelude::*;

verus! {

/// Value that a table of attributes gives to `key`: the last assignment wins.
pub open spec fn lookup(a: Seq<(String, String)>, key: Seq<char>) -> Option<Seq<char>>
    decreases a.len(),
{
    if a.len() == 0 {
        None
    } else if a.last().0@ == key {
        Some(a.last().1@)
    } else {
        lookup(a.drop_last(), key)
    }
}

/// The attributes of one reply sentence, as `key=value` pairs in arrival order.
pub struct Sentence {
    pub attrs: Vec<(String, String)>,
}

impl Sentence {
    pub open spec fn get_spec(&self, key: Seq<char>) -> Option<Seq<char>> {
        lookup(self.attrs@, key)
    }

    pub fn new() -> (r: Sentence)
        ensures
            r.attrs@.len() == 0,
    {
        Sentence { attrs: Vec::new() }
    }

    /// Assigns `value` to `key`, replacing what an earlier assignment gave it.
    pub fn insert(&mut self, key: &str, value: &str)
        ensures
            final(self).attrs@.len() == old(self).attrs@.len() + 1,
            final(self).attrs@.drop_last() == old(self).attrs@,
            final(self).attrs@.last().0@ == key@,
            final(self).attrs@.last().1@ == value@,
            forall|k: Seq<char>|
                #![trigger final(self).get_spec(k)]
                final(self).get_spec(k) == if k == key@ {
                    Some(value@)
                } else {
                    old(self).get_spec(k)
                },
    {
        let k = crate::text::owned(key);
        let v = crate::text::owned(value);
        self.attrs.push((k, v));
        proof {
            let a = final(self).attrs@;
            assert(a.drop_last() =~= old(self).attrs@);
        }
    }

    /// The value of `key`, if the sentence assigns one.
    pub fn get(&self, key: &str) -> (r: Option<&String>)
        ensures
            r matches Some(v) ==> self.get_spec(key@) == Some(v@),
            r is None <==> self.get_spec(key@) is None,
    {
        let mut i: usize = self.attrs.len();
        assert(self.attrs@.subrange(0, i as int) =~= self.attrs@);
        while i > 0
            invariant
                i <= self.attrs@.len(),
                lookup(self.attrs@, key@) == lookup(self.attrs@.subrange(0, i as int), key@),
            decreases i,
        {
            let ghost pre = self.attrs@.subrange(0, i as int);
            assert(pre.drop_last() =~= self.attrs@.subrange(0, i - 1));
            if str_eq(self.attrs[i - 1].0.as_str(), key) {
                return Some(&self.attrs[i - 1].1);
            }
            i -= 1;
        }
        None
    }

    pub fn contains_key(&self, key: &str) -> (r: bool)
        ensures
            r == self.get_spec(key@) is Some,
    {
        self.get(key).is_some()
    }
}

/// Split of an attribute word `=key=value` into key and value, at the first `=` after
/// the leading one.
pub open spec fn attribute_spec(w: Seq<char>) -> Option<(Seq<char>, Seq<char>)> {
    if w.len() > 0 && w[0] == '=' && exists|i: int| 1 <= i < w.len() && w[i] == '=' {
        let i = choose|i: int|
            1 <= i < w.len() && w[i] == '=' && forall|j: int| 1 <= j < i ==> w[j] != '=';
        Some((w.subrange(1, i), w.subrange(i + 1, w.len() as int)))
    } else {
        None
    }
}

/// Reads an attribute word `=key=value`.
pub fn parse_attribute(word: &str) -> (r: Option<(String, String)>)
    ensures
        r matches Some((k, v)) ==> attribute_spec(word@) == Some((k@, v@)),
        r is None <==> attribute_spec(word@) is None,
{
    let cs = chars_of(word);
    if cs.len() == 0 || cs[0] != '=' {
        return None;
    }
    let rest = cs.as_slice().split_at(1).1;
    let found = find_char(rest, '=');
    assert(rest@ =~= cs@.subrange(1, cs@.len() as int));
    match found {
        None => {
            assert forall|i: int| 1 <= i < word@.len() implies word@[i] != '=' by {
                assert(rest@[i - 1] == word@[i]);
            }
            None
        },
        Some(p) => {
            let i = p + 1;
            proof {
                assert(word@[i as int] == '=');
                assert forall|j: int| 1 <= j < i implies word@[j] != '=' by {
                    assert(rest@[j - 1] == word@[j]);
                }
                let c = choose|c: int|
                    1 <= c < word@.len() && word@[c] == '=' && forall|j: int|
                        1 <= j < c ==> word@[j] != '=';
                assert(c == i as int) by {
                    if c < i {
                        assert(rest@[c - 1] == word@[c]);
                    }
                    if c > i {
                        assert(word@[i as int] == '=');
                    }
                }
            }
            let k = substring(word, 1, i);
            let v = substring(word, i + 1, cs.len());
            Some((k, v))
        },
    }
}

/// Whether a word starts with `!`, as reply markers do.
pub open spec fn is_marker(w: Seq<char>) -> bool {
    w.len() > 0 && w[0] == '!'
}

/// Whether a word starts with `=`, as attribute words do.
pub open spec fn is_attribute_word(w: Seq<char>) -> bool {
    w.len() > 0 && w[0] == '='
}

/// What reading one inbound word leads to.
pub enum ReplyEvent {
    /// More words are needed.
    Pending,
    /// The terminator came: the data rows of the exchange.
    Done(Vec<Sentence>),
    /// The device reported an error; the `message` attribute of the trap, or `trap`.
    Trap(String),
}

/// The state of one exchange while its reply arrives word by word.
pub struct ReplyReader {
    /// Rows that are complete.
    pub rows: Vec<Sentence>,
    /// The row being filled, if a data marker or an attribute opened one.
    pub current: Option<Sentence>,
    /// Whether an error marker was seen; its attributes then go to `trap`.
    pub in_trap: bool,
    pub trap: Sentence,
}

/// The rows with the open one closed.
pub open spec fn close_row(rows: Seq<Sentence>, current: Option<Sentence>) -> Seq<Sentence> {
    match current {
        Some(s) => rows.push(s),
        None => rows,
    }
}

/// What `key` holds in the open row, if any.
pub open spec fn row_get(current: Option<Sentence>, key: Seq<char>) -> Option<Seq<char>> {
    match current {
        Some(c) => c.get_spec(key),
        None => None,
    }
}

/// What `key` holds after the attribute word `word` was applied to a table in which it
/// held `before`.
pub open spec fn assign_result(word: Seq<char>, key: Seq<char>, before: Option<Seq<char>>) -> Option<
    Seq<char>,
> {
    match attribute_spec(word) {
        Some((ak, av)) => if key == ak {
            Some(av)
        } else {
            before
        },
        None => before,
    }
}

impl ReplyReader {
    pub fn new() -> (r: ReplyReader)
        ensures
            r.rows@.len() == 0,
            r.current is None,
            !r.in_trap,
            r.trap.attrs@.len() == 0,
    {
        ReplyReader { rows: Vec::new(), current: None, in_trap: false, trap: Sentence::new() }
    }

    /// Takes the next inbound word. Empty words are skipped; `!done` ends the exchange
    /// with the rows read; `!trap` turns the reader to the error's attributes, and the
    /// next marker then ends the exchange with the error's `message`; `!re` opens a new
    /// row; `=key=value` assigns in the open row (opening one if needed); other words are
    /// ignored.
    pub fn feed(&mut self, word: &str) -> (r: ReplyEvent)
        ensures
            word@.len() == 0 ==> r is Pending && *final(self) == *old(self),
            word@.len() > 0 && !old(self).in_trap ==> {
                if word@ == "!done"@ {
                    r matches ReplyEvent::Done(rows) && rows@ == close_row(
                        old(self).rows@,
                        old(self).current,
                    )
                } else if word@ == "!trap"@ {
                    r is Pending && final(self).in_trap && final(self).rows@ == old(
                        self,
                    ).rows@ && final(self).trap == old(self).trap
                } else if word@ == "!re"@ {
                    r is Pending && !final(self).in_trap && final(self).rows@ == close_row(
                        old(self).rows@,
                        old(self).current,
                    ) && (final(self).current matches Some(s) && s.attrs@.len() == 0)
                } else if is_attribute_word(word@) {
                    r is Pending && !final(self).in_trap && final(self).rows@ == old(
                        self,
                    ).rows@ && final(self).current is Some && (forall|k: Seq<char>|
                        #![trigger row_get(final(self).current, k)]
                        row_get(final(self).current, k) == assign_result(
                            word@,
                            k,
                            row_get(old(self).current, k),
                        ))
                } else {
                    r is Pending && *final(self) == *old(self)
                }
            },
            word@.len() > 0 && old(self).in_trap ==> {
                if is_attribute_word(word@) {
                    r is Pending && final(self).in_trap && final(self).rows@ == old(
                        self,
                    ).rows@ && (forall|k: Seq<char>|
                        #![trigger final(self).trap.get_spec(k)]
                        final(self).trap.get_spec(k) == assign_result(
                            word@,
                            k,
                            old(self).trap.get_spec(k),
                        ))
                } else if is_marker(word@) {
                    r matches ReplyEvent::Trap(m) && m@ == match old(self).trap.get_spec(
                        "message"@,
                    ) {
                        Some(v) => v,
                        None => "trap"@,
                    }
                } else {
                    r is Pending && *final(self) == *old(self)
                }
            },
    {
        let cs = chars_of(word);
        if cs.len() == 0 {
            return ReplyEvent::Pending;
        }
        if self.in_trap {
            if cs[0] == '=' {
                match parse_attribute(word) {
                    Some((k, v)) => self.trap.insert(k.as_str(), v.as_str()),
                    None => {},
                }
                return ReplyEvent::Pending;
            }
            if cs[0] == '!' {
                let m = match self.trap.get("message") {
                    Some(v) => crate::text::owned(v.as_str()),
                    None => crate::text::owned("trap"),
                };
                return ReplyEvent::Trap(m);
            }
            return ReplyEvent::Pending;
        }
        if str_eq(word, "!done") {
            let mut cur: Option<Sentence> = None;
            std::mem::swap(&mut cur, &mut self.current);
            let mut rows: Vec<Sentence> = Vec::new();
            std::mem::swap(&mut rows, &mut self.rows);
            match cur {
                Some(s) => rows.push(s),
                None => {},
            }
            return ReplyEvent::Done(rows);
        }
        if str_eq(word, "!trap") {
            self.in_trap = true;
            return ReplyEvent::Pending;
        }
        if str_eq(word, "!re") {
            let mut cur: Option<Sentence> = Some(Sentence::new());
            std::mem::swap(&mut cur, &mut self.current);
            match cur {
                Some(s) => self.rows.push(s),
                None => {},
            }
            return ReplyEvent::Pending;
        }
        if cs[0] == '=' {
            let mut cur: Option<Sentence> = None;
            std::mem::swap(&mut cur, &mut self.current);
            let mut row = match cur {
                Some(s) => s,
                None => Sentence::new(),
            };
            match parse_attribute(word) {
                Some((k, v)) => row.insert(k.as_str(), v.as_str()),
                None => {},
            }
            self.current = Some(row);
            return ReplyEvent::Pending;
        }
        ReplyEvent::Pending
    }
}

} // verus!
