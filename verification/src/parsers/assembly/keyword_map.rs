use crate::parsers::lines::{lines_of, slice_to_vec, split_lines, trim, trimmed};
use crate::parsers::text::string_from_chars;
use vstd::prelude::*;

verus! {

/// Why a keyword definition was refused.
#[derive(Clone, Copy, Debug, PartialEq, Eq, Structural)]
pub enum KeywordMapError {
    EmptyName,
    EmptyOpCode,
    OpCodeTooLong,
    InvalidOpCode,
    WrongFormat,
}

/// The value of a string of binary digits.
pub open spec fn binary_value(op: Seq<char>) -> nat
    decreases op.len(),
{
    if op.len() == 0 {
        0
    } else {
        2 * binary_value(op.drop_last()) + if op.last() == '1' {
            1nat
        } else {
            0nat
        }
    }
}

/// Every character is `0` or `1`.
pub open spec fn is_binary(op: Seq<char>) -> bool {
    forall|i: int| 0 <= i < op.len() ==> (#[trigger] op[i]) == '0' || op[i] == '1'
}

/// A keyword definition checked: its name, its opcode (the value of the binary
/// digits) and the number of low bits left for the argument (16 less the number
/// of digits).
pub open spec fn validated_pair(name: Seq<char>, op: Seq<char>) -> Result<
    (Seq<char>, (usize, usize)),
    KeywordMapError,
> {
    if name.len() == 0 {
        Err(KeywordMapError::EmptyName)
    } else if op.len() == 0 {
        Err(KeywordMapError::EmptyOpCode)
    } else if !is_binary(op) {
        Err(KeywordMapError::InvalidOpCode)
    } else if op.len() > 16 {
        Err(KeywordMapError::OpCodeTooLong)
    } else {
        Ok((name, (binary_value(op) as usize, (16 - op.len()) as usize)))
    }
}

/// The keyword table of a list of checked definitions; a later definition of a
/// name replaces an earlier one.
pub open spec fn entries_map(e: Seq<(Seq<char>, (usize, usize))>) -> Map<Seq<char>, (usize, usize)>
    decreases e.len(),
{
    if e.len() == 0 {
        Map::empty()
    } else {
        entries_map(e.drop_last()).insert(e.last().0, e.last().1)
    }
}

/// The definitions, checked as they are.
pub open spec fn validated_entries(pairs: Seq<(Seq<char>, Seq<char>)>) -> Seq<(Seq<char>, (usize, usize))> {
    Seq::new(
        pairs.len(),
        |i: int|
            match validated_pair(pairs[i].0, pairs[i].1) {
                Ok(v) => v,
                Err(_) => (Seq::empty(), (0usize, 0usize)),
            },
    )
}

/// The first definition that is refused, with its error.
pub open spec fn first_invalid(pairs: Seq<(Seq<char>, Seq<char>)>) -> Option<(int, KeywordMapError)> {
    if exists|i: int| 0 <= i < pairs.len() && #[trigger] validated_pair(pairs[i].0, pairs[i].1) is Err {
        let i = choose|i: int|
            0 <= i < pairs.len() && #[trigger] validated_pair(pairs[i].0, pairs[i].1) is Err && forall|j: int|
                0 <= j < i ==> validated_pair(pairs[j].0, pairs[j].1) is Ok;
        Some((i, validated_pair(pairs[i].0, pairs[i].1)->Err_0))
    } else {
        None
    }
}

/// Each name and opcode without leading and trailing whitespace.
pub open spec fn trim_pairs(pairs: Seq<(Seq<char>, Seq<char>)>) -> Seq<(Seq<char>, Seq<char>)> {
    Seq::new(pairs.len(), |i: int| (trimmed(pairs[i].0), trimmed(pairs[i].1)))
}

/// The instructions of the standard MAC-1 assembly and their opcodes.
pub open spec fn default_pairs() -> Seq<(Seq<char>, Seq<char>)> {
    seq![
        (seq!['L', 'O', 'D', 'D'], seq!['0', '0', '0', '0']),
        (seq!['S', 'T', 'O', 'D'], seq!['0', '0', '0', '1']),
        (seq!['A', 'D', 'D', 'D'], seq!['0', '0', '1', '0']),
        (seq!['S', 'U', 'B', 'D'], seq!['0', '0', '1', '1']),
        (seq!['J', 'P', 'O', 'S'], seq!['0', '1', '0', '0']),
        (seq!['J', 'Z', 'E', 'R'], seq!['0', '1', '0', '1']),
        (seq!['J', 'U', 'M', 'P'], seq!['0', '1', '1', '0']),
        (seq!['L', 'O', 'C', 'O'], seq!['0', '1', '1', '1']),
        (seq!['L', 'O', 'D', 'L'], seq!['1', '0', '0', '0']),
        (seq!['S', 'T', 'O', 'L'], seq!['1', '0', '0', '1']),
        (seq!['A', 'D', 'D', 'L'], seq!['1', '0', '1', '0']),
        (seq!['S', 'U', 'B', 'L'], seq!['1', '0', '1', '1']),
        (seq!['J', 'N', 'E', 'G'], seq!['1', '1', '0', '0']),
        (seq!['J', 'N', 'Z', 'E'], seq!['1', '1', '0', '1']),
        (seq!['C', 'A', 'L', 'L'], seq!['1', '1', '1', '0']),
        (seq!['P', 'S', 'H', 'I'], seq!['1', '1', '1', '1', '0', '0', '0', '0', '0', '0', '0', '0', '0', '0', '0', '0']),
        (seq!['P', 'O', 'P', 'I'], seq!['1', '1', '1', '1', '0', '0', '1', '0', '0', '0', '0', '0', '0', '0', '0', '0']),
        (seq!['P', 'U', 'S', 'H'], seq!['1', '1', '1', '1', '0', '1', '0', '0', '0', '0', '0', '0', '0', '0', '0', '0']),
        (seq!['P', 'O', 'P'], seq!['1', '1', '1', '1', '0', '1', '1', '0', '0', '0', '0', '0', '0', '0', '0', '0']),
        (seq!['R', 'E', 'T', 'N'], seq!['1', '1', '1', '1', '1', '0', '0', '0', '0', '0', '0', '0', '0', '0', '0', '0']),
        (seq!['S', 'W', 'A', 'P'], seq!['1', '1', '1', '1', '1', '0', '1', '0', '0', '0', '0', '0', '0', '0', '0', '0']),
        (seq!['S', 'W', 'A', 'P', 'A'], seq!['1', '1', '1', '1', '1', '1', '1', '1', '0', '0', '0', '0', '0', '0', '0', '0']),
        (seq!['S', 'W', 'A', 'P', 'B'], seq!['1', '1', '1', '1', '1', '1', '1', '1', '0', '0', '1', '0', '0', '0', '0', '0']),
        (seq!['S', 'W', 'A', 'P', 'C'], seq!['1', '1', '1', '1', '1', '1', '1', '1', '0', '1', '0', '0', '0', '0', '0', '0']),
        (seq!['S', 'W', 'A', 'P', 'D'], seq!['1', '1', '1', '1', '1', '1', '1', '1', '0', '1', '1', '0', '0', '0', '0', '0']),
        (seq!['S', 'W', 'A', 'P', 'E'], seq!['1', '1', '1', '1', '1', '1', '1', '1', '1', '0', '0', '0', '0', '0', '0', '0']),
        (seq!['E', 'C', 'A', 'L', 'L'], seq!['1', '1', '1', '1', '1', '1', '1', '1', '1', '1', '0', '0', '0', '0', '0', '0']),
        (seq!['H', 'A', 'L', 'T'], seq!['0', '0', '0', '0', '0', '0', '0', '0', '0', '0', '0', '0', '0', '0', '0', '0']),
        (seq!['I', 'N', 'S', 'P'], seq!['1', '1', '1', '1', '1', '1', '0', '0']),
        (seq!['D', 'E', 'S', 'P'], seq!['1', '1', '1', '1', '1', '1', '1', '0']),
    ]
}

/// The position of the first comma of `s` at or after `i`, or the length of `s`.
pub open spec fn comma_from(s: Seq<char>, i: int) -> int
    decreases s.len() - i,
{
    if i < 0 || i >= s.len() {
        s.len() as int
    } else if s[i] == ',' {
        i
    } else {
        comma_from(s, i + 1)
    }
}

/// The name and the opcode of a line of a keyword file: the text before the
/// first comma and the text between it and the next comma (or the end), each
/// trimmed; `None` where the line holds no comma.
pub open spec fn line_fields(line: Seq<char>) -> Option<(Seq<char>, Seq<char>)> {
    let k = comma_from(line, 0);
    if k >= line.len() {
        None
    } else {
        let rest = line.subrange(k + 1, line.len() as int);
        Some((trimmed(line.subrange(0, k)), trimmed(rest.subrange(0, comma_from(rest, 0)))))
    }
}

/// The definitions of the lines of a keyword file, blank lines skipped; or the
/// index of the first line that is refused, with the reason.
pub open spec fn parse_keyword_lines(lines: Seq<Seq<char>>) -> Result<
    Seq<(Seq<char>, Seq<char>)>,
    (int, KeywordMapError),
>
    decreases lines.len(),
{
    if lines.len() == 0 {
        Ok(Seq::empty())
    } else {
        match parse_keyword_lines(lines.drop_last()) {
            Err(e) => Err(e),
            Ok(defs) => {
                let line = lines.last();
                if trimmed(line).len() == 0 {
                    Ok(defs)
                } else {
                    match line_fields(line) {
                        None => Err((lines.len() - 1, KeywordMapError::WrongFormat)),
                        Some(f) => match validated_pair(f.0, f.1) {
                            Err(e) => Err((lines.len() - 1, e)),
                            Ok(_) => Ok(defs.push(f)),
                        },
                    }
                }
            },
        }
    }
}

/// The table of instruction names of an assembly, with their opcodes and the
/// width of their argument, and the definitions it was made from.
#[derive(Debug)]
pub struct KeywordMap {
    entries: Vec<(Vec<char>, (usize, usize))>,
    str_values: Vec<(String, String)>,
}

impl KeywordMap {
    /// Every opcode leaves an argument of at most 15 bits, and fits the bits
    /// above it.
    #[verifier::type_invariant]
    spec fn opcodes_fit(&self) -> bool {
        forall|i: int|
            0 <= i < self.entries@.len() ==> (#[trigger] self.entries@[i]).1.1 <= 15 && (self.entries@[i].1.0 as nat)
                < pow2((16 - self.entries@[i].1.1) as nat)
    }

    /// The definitions, in order.
    pub closed spec fn entries(&self) -> Seq<(Seq<char>, (usize, usize))> {
        Seq::new(self.entries@.len(), |i: int| (self.entries@[i].0@, self.entries@[i].1))
    }

    /// The table: each name with its opcode and argument width.
    pub open spec fn view(&self) -> Map<Seq<char>, (usize, usize)> {
        entries_map(self.entries())
    }

    /// The definitions as they were given (name and opcode text).
    pub closed spec fn sources(&self) -> Seq<(Seq<char>, Seq<char>)> {
        Seq::new(self.str_values@.len(), |i: int| (self.str_values@[i].0@, self.str_values@[i].1@))
    }

    /// The opcode and argument width of the instruction `key`.
    pub fn get(&self, key: &[char]) -> (r: Option<(usize, usize)>)
        ensures
            r matches Some(v) ==> self.view().contains_key(key@) && self.view()[key@] == v,
            r is None ==> !self.view().contains_key(key@),
            r matches Some(v) ==> v.1 <= 15 && (v.0 as nat) < pow2((16 - v.1) as nat),
    {
        proof {
            use_type_invariant(self);
        }
        let mut i = self.entries.len();
        while i > 0
            invariant
                i <= self.entries@.len(),
                forall|j: int| i <= j < self.entries@.len() ==> self.entries@[j].0@ != key@,
            decreases i,
        {
            i = i - 1;
            if crate::architecture::datapath::chars_equal(self.entries[i].0.as_slice(), key) {
                proof {
                    use_type_invariant(self);
                    lemma_entries_map_last(self.entries(), i as int, key@);
                }
                return Some(self.entries[i].1);
            }
        }
        proof {
            lemma_entries_map_absent(self.entries(), key@);
        }
        None
    }

    /// The definitions as they were given (name and opcode text).
    pub fn str_values(&self) -> (r: Vec<(String, String)>)
        ensures
            r@.len() == self.sources().len(),
            forall|i: int| 0 <= i < r@.len() ==> (#[trigger] r@[i]).0@ == self.sources()[i].0 && r@[i].1@ == self.sources()[i].1,
    {
        let mut r: Vec<(String, String)> = Vec::new();
        let mut i: usize = 0;
        while i < self.str_values.len()
            invariant
                i <= self.str_values@.len(),
                r@.len() == i,
                forall|j: int| 0 <= j < i ==> (#[trigger] r@[j]).0@ == self.sources()[j].0 && r@[j].1@ == self.sources()[j].1,
            decreases self.str_values.len() - i,
        {
            let a = self.str_values[i].0.clone();
            let b = self.str_values[i].1.clone();
            r.push((a, b));
            i = i + 1;
        }
        r
    }

    /// Checks one definition: the name must not be empty and the opcode must be 1
    /// to 16 binary digits.
    pub fn validate_pair(name: &str, op: &str) -> (r: Result<(String, (usize, usize)), KeywordMapError>)
        ensures
            r matches Ok(v) ==> validated_pair(name@, op@) == Ok::<(Seq<char>, (usize, usize)), KeywordMapError>((v.0@, v.1)),
            r matches Err(e) ==> validated_pair(name@, op@) == Err::<(Seq<char>, (usize, usize)), _>(e),
    {
        let n = crate::parsers::text::str_chars(name);
        let o = crate::parsers::text::str_chars(op);
        match validate_chars(n.as_slice(), o.as_slice()) {
            Ok((nm, v)) => Ok((string_from_chars(nm.as_slice()), v)),
            Err(e) => Err(e),
        }
    }

    /// A table of `pairs` (name, opcode), each trimmed and checked; the first
    /// refused definition is reported with its position. The definitions are kept
    /// as given.
    pub fn from_pairs(pairs: Vec<(String, String)>) -> (r: Result<KeywordMap, (usize, KeywordMapError)>)
        ensures
            ({
                let p = Seq::new(pairs@.len(), |i: int| (pairs@[i].0@, pairs@[i].1@));
                match r {
                    Ok(m) => first_invalid(trim_pairs(p)) is None && m.view() == entries_map(
                        validated_entries(trim_pairs(p)),
                    ) && m.sources() == p,
                    Err((i, e)) => first_invalid(trim_pairs(p)) == Some((i as int, e)),
                }
            }),
    {
        let ghost p = Seq::new(pairs@.len(), |i: int| (pairs@[i].0@, pairs@[i].1@));
        let mut char_pairs: Vec<(Vec<char>, Vec<char>)> = Vec::new();
        let mut i: usize = 0;
        while i < pairs.len()
            invariant
                i <= pairs@.len(),
                p == Seq::new(pairs@.len(), |i: int| (pairs@[i].0@, pairs@[i].1@)),
                char_pairs@.len() == i,
                forall|j: int| 0 <= j < i ==> (#[trigger] char_pairs@[j]).0@ == trimmed(p[j].0) && char_pairs@[j].1@ == trimmed(p[j].1),
            decreases pairs.len() - i,
        {
            let a = crate::parsers::text::str_chars(pairs[i].0.as_str());
            let b = crate::parsers::text::str_chars(pairs[i].1.as_str());
            char_pairs.push((trim(a.as_slice()), trim(b.as_slice())));
            i = i + 1;
        }
        proof {
            assert(pairs_view(char_pairs@) =~= trim_pairs(p));
        }
        match build_entries(&char_pairs) {
            Ok(entries) => {
                let m = KeywordMap { entries, str_values: pairs };
                assert(m.sources() =~= p);
                Ok(m)
            },
            Err(e) => Err(e),
        }
    }

    /// The table of a keyword file: one definition `name,opcode` a line, blank
    /// lines skipped. The first line that is refused is reported with its index
    /// (counted from 0, blank lines included).
    pub fn from_file_content(content: &str) -> (r: Result<KeywordMap, (Option<usize>, KeywordMapError)>)
        ensures
            r matches Ok(m) ==> parse_keyword_lines(lines_of(content@)) == Ok::<_, (int, KeywordMapError)>(
                m.sources(),
            ) && m.view() == entries_map(validated_entries(m.sources())),
            r matches Err((i, e)) ==> i is Some && parse_keyword_lines(lines_of(content@)) == Err::<
                Seq<(Seq<char>, Seq<char>)>,
                _,
            >((i->0 as int, e)),
    {
        let chars = crate::parsers::text::str_chars(content);
        let lines = split_lines(chars.as_slice());
        let ghost ls = lines_of(content@);
        proof {
            assert forall|j: int| 0 <= j < lines@.len() implies #[trigger] lines@[j]@ == ls[j] by {}
        }
        let mut defs: Vec<(Vec<char>, Vec<char>)> = Vec::new();
        let mut i: usize = 0;
        proof {
            assert(ls.take(0) =~= Seq::<Seq<char>>::empty());
            assert(pairs_view(defs@) =~= Seq::empty());
        }
        while i < lines.len()
            invariant
                ls == lines_of(content@),
                lines@.len() == ls.len(),
                forall|j: int| 0 <= j < lines@.len() ==> #[trigger] lines@[j]@ == ls[j],
                i <= lines@.len(),
                parse_keyword_lines(ls.take(i as int)) == Ok::<_, (int, KeywordMapError)>(pairs_view(defs@)),
                forall|j: int| 0 <= j < defs@.len() ==> #[trigger] validated_pair(defs@[j].0@, defs@[j].1@) is Ok,
            decreases lines.len() - i,
        {
            let line = lines[i].as_slice();
            proof {
                assert(ls.take(i + 1).drop_last() =~= ls.take(i as int));
                assert(ls.take(i + 1).last() == line@);
            }
            let t = trim(line);
            if t.len() > 0 {
                match fields_of(line) {
                    None => {
                        proof {
                            lemma_parse_err_extends(ls, i + 1);
                        }
                        return Err((Some(i), KeywordMapError::WrongFormat));
                    },
                    Some((name, op)) => {
                        match validate_chars(name.as_slice(), op.as_slice()) {
                            Err(e) => {
                                proof {
                                    lemma_parse_err_extends(ls, i + 1);
                                }
                                return Err((Some(i), e));
                            },
                            Ok(_) => {
                                let ghost before = defs@;
                                defs.push((name, op));
                                proof {
                                    assert(pairs_view(defs@) =~= pairs_view(before).push(
                                        (defs@.last().0@, defs@.last().1@),
                                    ));
                                }
                            },
                        }
                    },
                }
            }
            i = i + 1;
        }
        proof {
            assert(ls.take(i as int) =~= ls);
        }
        let entries = match build_entries(&defs) {
            Ok(e) => e,
            Err((j, _)) => {
                proof {
                    assert(validated_pair(pairs_view(defs@)[j as int].0, pairs_view(defs@)[j as int].1) is Ok);
                }
                return Err((None, KeywordMapError::WrongFormat));
            },
        };
        let mut str_values: Vec<(String, String)> = Vec::new();
        let mut k: usize = 0;
        while k < defs.len()
            invariant
                k <= defs@.len(),
                str_values@.len() == k,
                forall|j: int| 0 <= j < k ==> (#[trigger] str_values@[j]).0@ == defs@[j].0@ && str_values@[j].1@ == defs@[j].1@,
            decreases defs.len() - k,
        {
            let a = string_from_chars(defs[k].0.as_slice());
            let b = string_from_chars(defs[k].1.as_slice());
            str_values.push((a, b));
            k = k + 1;
        }
        let m = KeywordMap { entries, str_values };
        assert(m.sources() =~= pairs_view(defs@));
        Ok(m)
    }
}

impl Clone for KeywordMap {
    /// The same table, from the same definitions.
    fn clone(&self) -> (r: KeywordMap)
        ensures
            r.view() == self.view(),
            r.sources() == self.sources(),
    {
        proof {
            use_type_invariant(self);
        }
        let mut entries: Vec<(Vec<char>, (usize, usize))> = Vec::new();
        let mut i: usize = 0;
        while i < self.entries.len()
            invariant
                i <= self.entries@.len(),
                entries@.len() == i,
                forall|j: int|
                    0 <= j < i ==> (#[trigger] entries@[j]).0@ == self.entries@[j].0@ && entries@[j].1
                        == self.entries@[j].1,
                forall|j: int|
                    0 <= j < self.entries@.len() ==> (#[trigger] self.entries@[j]).1.1 <= 15 && (
                    self.entries@[j].1.0 as nat) < pow2((16 - self.entries@[j].1.1) as nat),
            decreases self.entries.len() - i,
        {
            let name = slice_to_vec(self.entries[i].0.as_slice(), 0, self.entries[i].0.len());
            proof {
                assert(self.entries[i as int].0@.subrange(0, self.entries[i as int].0@.len() as int)
                    =~= self.entries[i as int].0@);
            }
            entries.push((name, self.entries[i].1));
            i = i + 1;
        }
        let str_values = self.str_values();
        let r = KeywordMap { entries, str_values };
        proof {
            assert(r.entries() =~= self.entries());
            assert(r.sources() =~= self.sources());
        }
        r
    }
}

impl Default for KeywordMap {
    /// The table of the standard MAC-1 instructions.
    fn default() -> (m: KeywordMap)
        ensures
            m.view() == entries_map(validated_entries(default_pairs())),
            m.sources() == default_pairs(),
    {
        let mut pairs: Vec<(Vec<char>, Vec<char>)> = Vec::new();
        pairs.push((vec!['L', 'O', 'D', 'D'], vec!['0', '0', '0', '0']));
        pairs.push((vec!['S', 'T', 'O', 'D'], vec!['0', '0', '0', '1']));
        pairs.push((vec!['A', 'D', 'D', 'D'], vec!['0', '0', '1', '0']));
        pairs.push((vec!['S', 'U', 'B', 'D'], vec!['0', '0', '1', '1']));
        pairs.push((vec!['J', 'P', 'O', 'S'], vec!['0', '1', '0', '0']));
        pairs.push((vec!['J', 'Z', 'E', 'R'], vec!['0', '1', '0', '1']));
        pairs.push((vec!['J', 'U', 'M', 'P'], vec!['0', '1', '1', '0']));
        pairs.push((vec!['L', 'O', 'C', 'O'], vec!['0', '1', '1', '1']));
        pairs.push((vec!['L', 'O', 'D', 'L'], vec!['1', '0', '0', '0']));
        pairs.push((vec!['S', 'T', 'O', 'L'], vec!['1', '0', '0', '1']));
        pairs.push((vec!['A', 'D', 'D', 'L'], vec!['1', '0', '1', '0']));
        pairs.push((vec!['S', 'U', 'B', 'L'], vec!['1', '0', '1', '1']));
        pairs.push((vec!['J', 'N', 'E', 'G'], vec!['1', '1', '0', '0']));
        pairs.push((vec!['J', 'N', 'Z', 'E'], vec!['1', '1', '0', '1']));
        pairs.push((vec!['C', 'A', 'L', 'L'], vec!['1', '1', '1', '0']));
        pairs.push((vec!['P', 'S', 'H', 'I'], vec!['1', '1', '1', '1', '0', '0', '0', '0', '0', '0', '0', '0', '0', '0', '0', '0']));
        pairs.push((vec!['P', 'O', 'P', 'I'], vec!['1', '1', '1', '1', '0', '0', '1', '0', '0', '0', '0', '0', '0', '0', '0', '0']));
        pairs.push((vec!['P', 'U', 'S', 'H'], vec!['1', '1', '1', '1', '0', '1', '0', '0', '0', '0', '0', '0', '0', '0', '0', '0']));
        pairs.push((vec!['P', 'O', 'P'], vec!['1', '1', '1', '1', '0', '1', '1', '0', '0', '0', '0', '0', '0', '0', '0', '0']));
        pairs.push((vec!['R', 'E', 'T', 'N'], vec!['1', '1', '1', '1', '1', '0', '0', '0', '0', '0', '0', '0', '0', '0', '0', '0']));
        pairs.push((vec!['S', 'W', 'A', 'P'], vec!['1', '1', '1', '1', '1', '0', '1', '0', '0', '0', '0', '0', '0', '0', '0', '0']));
        pairs.push((vec!['S', 'W', 'A', 'P', 'A'], vec!['1', '1', '1', '1', '1', '1', '1', '1', '0', '0', '0', '0', '0', '0', '0', '0']));
        pairs.push((vec!['S', 'W', 'A', 'P', 'B'], vec!['1', '1', '1', '1', '1', '1', '1', '1', '0', '0', '1', '0', '0', '0', '0', '0']));
        pairs.push((vec!['S', 'W', 'A', 'P', 'C'], vec!['1', '1', '1', '1', '1', '1', '1', '1', '0', '1', '0', '0', '0', '0', '0', '0']));
        pairs.push((vec!['S', 'W', 'A', 'P', 'D'], vec!['1', '1', '1', '1', '1', '1', '1', '1', '0', '1', '1', '0', '0', '0', '0', '0']));
        pairs.push((vec!['S', 'W', 'A', 'P', 'E'], vec!['1', '1', '1', '1', '1', '1', '1', '1', '1', '0', '0', '0', '0', '0', '0', '0']));
        pairs.push((vec!['E', 'C', 'A', 'L', 'L'], vec!['1', '1', '1', '1', '1', '1', '1', '1', '1', '1', '0', '0', '0', '0', '0', '0']));
        pairs.push((vec!['H', 'A', 'L', 'T'], vec!['0', '0', '0', '0', '0', '0', '0', '0', '0', '0', '0', '0', '0', '0', '0', '0']));
        pairs.push((vec!['I', 'N', 'S', 'P'], vec!['1', '1', '1', '1', '1', '1', '0', '0']));
        pairs.push((vec!['D', 'E', 'S', 'P'], vec!['1', '1', '1', '1', '1', '1', '1', '0']));
        proof {
            assert forall|i: int| 0 <= i < pairs@.len() implies (#[trigger] pairs@[i]).0@ == default_pairs()[i].0
                && pairs@[i].1@ == default_pairs()[i].1 by {}
        }
        let mut str_values: Vec<(String, String)> = Vec::new();
        let mut i: usize = 0;
        while i < pairs.len()
            invariant
                i <= pairs@.len(),
                pairs@.len() == default_pairs().len(),
                forall|j: int| 0 <= j < pairs@.len() ==> (#[trigger] pairs@[j]).0@ == default_pairs()[j].0 && pairs@[j].1@ == default_pairs()[j].1,
                str_values@.len() == i,
                forall|j: int| 0 <= j < i ==> (#[trigger] str_values@[j]).0@ == default_pairs()[j].0 && str_values@[j].1@ == default_pairs()[j].1,
            decreases pairs.len() - i,
        {
            let a = string_from_chars(pairs[i].0.as_slice());
            let b = string_from_chars(pairs[i].1.as_slice());
            str_values.push((a, b));
            i = i + 1;
        }
        proof {
            lemma_default_pairs_valid();
            assert(pairs_view(pairs@) =~= default_pairs());
        }
        match build_entries(&pairs) {
            Ok(entries) => {
                let m = KeywordMap { entries, str_values };
                assert(m.sources() =~= default_pairs());
                m
            },
            Err(_) => {
                let m = KeywordMap { entries: Vec::new(), str_values: Vec::new() };
                m
            },
        }
    }
}

/// Every character is a binary digit, checked one by one.
spec fn digits_ok(op: Seq<char>) -> bool
    decreases op.len(),
{
    op.len() == 0 || ((op.last() == '0' || op.last() == '1') && digits_ok(op.drop_last()))
}

/// Every definition of a list is accepted, checked one by one.
spec fn all_accepted(pairs: Seq<(Seq<char>, Seq<char>)>) -> bool
    decreases pairs.len(),
{
    pairs.len() == 0 || (pairs.last().0.len() > 0 && pairs.last().1.len() > 0 && pairs.last().1.len() <= 16
        && digits_ok(pairs.last().1) && all_accepted(pairs.drop_last()))
}

proof fn lemma_digits_ok(op: Seq<char>)
    requires
        digits_ok(op),
    ensures
        is_binary(op),
    decreases op.len(),
{
    if op.len() > 0 {
        lemma_digits_ok(op.drop_last());
        assert forall|i: int| 0 <= i < op.len() implies (#[trigger] op[i]) == '0' || op[i] == '1' by {
            if i < op.len() - 1 {
                assert(op[i] == op.drop_last()[i]);
            }
        }
    }
}

proof fn lemma_all_accepted(pairs: Seq<(Seq<char>, Seq<char>)>)
    requires
        all_accepted(pairs),
    ensures
        forall|i: int| 0 <= i < pairs.len() ==> #[trigger] validated_pair(pairs[i].0, pairs[i].1) is Ok,
    decreases pairs.len(),
{
    if pairs.len() > 0 {
        lemma_all_accepted(pairs.drop_last());
        lemma_digits_ok(pairs.last().1);
        assert forall|i: int| 0 <= i < pairs.len() implies #[trigger] validated_pair(pairs[i].0, pairs[i].1) is Ok by {
            if i < pairs.len() - 1 {
                assert(pairs[i] == pairs.drop_last()[i]);
            }
        }
    }
}

/// Every standard definition is accepted.
#[verifier::rlimit(100)]
pub proof fn lemma_default_pairs_valid()
    ensures
        first_invalid(default_pairs()) is None,
{
    assert(all_accepted(default_pairs())) by {
        reveal_with_fuel(all_accepted, 31);
        reveal_with_fuel(digits_ok, 17);
    }
    lemma_all_accepted(default_pairs());
}

/// The character sequences of a list of character vector pairs.
pub open spec fn pairs_view(v: Seq<(Vec<char>, Vec<char>)>) -> Seq<(Seq<char>, Seq<char>)> {
    Seq::new(v.len(), |i: int| (v[i].0@, v[i].1@))
}

/// Once a line is refused, the lines after it change nothing.
proof fn lemma_parse_err_extends(lines: Seq<Seq<char>>, j: int)
    requires
        0 <= j <= lines.len(),
        parse_keyword_lines(lines.take(j)) is Err,
    ensures
        parse_keyword_lines(lines) == parse_keyword_lines(lines.take(j)),
    decreases lines.len() - j,
{
    if j == lines.len() {
        assert(lines.take(j) =~= lines);
    } else {
        assert(lines.drop_last().take(j) =~= lines.take(j));
        lemma_parse_err_extends(lines.drop_last(), j);
    }
}

/// The name and opcode fields of a line, as `line_fields` gives them.
fn fields_of(line: &[char]) -> (r: Option<(Vec<char>, Vec<char>)>)
    ensures
        match r {
            None => line_fields(line@) is None,
            Some(f) => line_fields(line@) == Some((f.0@, f.1@)),
        },
{
    let k = comma_index(line, 0);
    if k >= line.len() {
        return None;
    }
    let name = trim(slice_to_vec(line, 0, k).as_slice());
    let rest = slice_to_vec(line, k + 1, line.len());
    let m = comma_index(rest.as_slice(), 0);
    let op = trim(slice_to_vec(rest.as_slice(), 0, m).as_slice());
    Some((name, op))
}

/// The position of the first comma of `s` at or after `i`.
fn comma_index(s: &[char], i: usize) -> (r: usize)
    requires
        i <= s@.len(),
    ensures
        r == comma_from(s@, i as int),
        i <= r <= s@.len(),
{
    let mut k = i;
    while k < s.len() && s[k] != ','
        invariant
            i <= k <= s@.len(),
            comma_from(s@, i as int) == comma_from(s@, k as int),
        decreases s.len() - k,
    {
        k = k + 1;
    }
    k
}

/// The checked definitions of `pairs`, or the first one refused.
fn build_entries(pairs: &Vec<(Vec<char>, Vec<char>)>) -> (r: Result<Vec<(Vec<char>, (usize, usize))>, (usize, KeywordMapError)>)
    ensures
        r matches Ok(e) ==> first_invalid(pairs_view(pairs@)) is None && Seq::new(
            e@.len(),
            |i: int| (e@[i].0@, e@[i].1),
        ) == validated_entries(pairs_view(pairs@)),
        r matches Err((i, err)) ==> first_invalid(pairs_view(pairs@)) == Some((i as int, err)),
        r matches Ok(e) ==> forall|i: int|
            0 <= i < e@.len() ==> (#[trigger] e@[i]).1.1 <= 15 && (e@[i].1.0 as nat) < pow2((16 - e@[i].1.1) as nat),
{
    let ghost pv = pairs_view(pairs@);
    let mut entries: Vec<(Vec<char>, (usize, usize))> = Vec::new();
    let mut i: usize = 0;
    while i < pairs.len()
        invariant
            pv == pairs_view(pairs@),
            i <= pairs@.len(),
            entries@.len() == i,
            forall|j: int| 0 <= j < i ==> #[trigger] validated_pair(pv[j].0, pv[j].1) is Ok,
            forall|j: int|
                0 <= j < i ==> validated_pair(pv[j].0, pv[j].1) == Ok::<_, KeywordMapError>(
                    ((#[trigger] entries@[j]).0@, entries@[j].1),
                ),
            forall|j: int|
                0 <= j < i ==> (#[trigger] entries@[j]).1.1 <= 15 && (entries@[j].1.0 as nat) < pow2(
                    (16 - entries@[j].1.1) as nat,
                ),
        decreases pairs.len() - i,
    {
        match validate_chars(pairs[i].0.as_slice(), pairs[i].1.as_slice()) {
            Ok(v) => {
                entries.push(v);
            },
            Err(e) => {
                proof {
                    let k = choose|k: int|
                        0 <= k < pv.len() && #[trigger] validated_pair(pv[k].0, pv[k].1) is Err
                            && forall|j: int| 0 <= j < k ==> validated_pair(pv[j].0, pv[j].1) is Ok;
                    assert(0 <= i < pv.len() && validated_pair(pv[i as int].0, pv[i as int].1) is Err
                        && forall|j: int| 0 <= j < i ==> validated_pair(pv[j].0, pv[j].1) is Ok);
                    if k < i {
                    } else if k > i {
                        assert(validated_pair(pv[i as int].0, pv[i as int].1) is Ok);
                    }
                }
                return Err((i, e));
            },
        }
        i = i + 1;
    }
    proof {
        assert(Seq::new(entries@.len(), |i: int| (entries@[i].0@, entries@[i].1)) =~= validated_entries(pv));
    }
    Ok(entries)
}

/// Checks one definition given as characters.
fn validate_chars(name: &[char], op: &[char]) -> (r: Result<(Vec<char>, (usize, usize)), KeywordMapError>)
    ensures
        r matches Ok(v) ==> validated_pair(name@, op@) == Ok::<_, KeywordMapError>((v.0@, v.1)),
        r matches Err(e) ==> validated_pair(name@, op@) == Err::<(Seq<char>, (usize, usize)), _>(e),
        r matches Ok(v) ==> v.1.1 <= 15 && (v.1.0 as nat) < pow2((16 - v.1.1) as nat),
{
    if name.len() == 0 {
        return Err(KeywordMapError::EmptyName);
    }
    if op.len() == 0 {
        return Err(KeywordMapError::EmptyOpCode);
    }
    let mut k: usize = 0;
    while k < op.len()
        invariant
            k <= op@.len(),
            name@.len() > 0,
            op@.len() > 0,
            forall|j: int| 0 <= j < k ==> (#[trigger] op@[j] == '0' || op@[j] == '1'),
        decreases op.len() - k,
    {
        if op[k] != '0' && op[k] != '1' {
            assert(!is_binary(op@));
            return Err(KeywordMapError::InvalidOpCode);
        }
        k = k + 1;
    }
    if op.len() > 16 {
        return Err(KeywordMapError::OpCodeTooLong);
    }
    let mut v: usize = 0;
    let mut k: usize = 0;
    while k < op.len()
        invariant
            k <= op@.len() <= 16,
            v == binary_value(op@.take(k as int)),
            v < pow2(k as nat),
        decreases op.len() - k,
    {
        proof {
            assert(op@.take(k + 1).drop_last() =~= op@.take(k as int));
            lemma_pow2_step(k as nat);
            lemma_pow2_bound((k + 1) as nat);
        }
        v = 2 * v + if op[k] == '1' {
            1
        } else {
            0
        };
        k = k + 1;
    }
    proof {
        assert(op@.take(k as int) =~= op@);
    }
    let mut nm: Vec<char> = Vec::new();
    let mut j: usize = 0;
    while j < name.len()
        invariant
            j <= name@.len(),
            nm@ == name@.take(j as int),
        decreases name.len() - j,
    {
        nm.push(name[j]);
        j = j + 1;
        assert(nm@ =~= name@.take(j as int));
    }
    assert(name@.take(j as int) =~= name@);
    Ok((nm, (v, 16 - op.len())))
}

/// Powers of two.
pub open spec fn pow2(n: nat) -> nat
    decreases n,
{
    if n == 0 {
        1
    } else {
        2 * pow2((n - 1) as nat)
    }
}

pub proof fn lemma_pow2_step(n: nat)
    ensures
        pow2(n + 1) == 2 * pow2(n),
{
}

pub proof fn lemma_pow2_bound(n: nat)
    requires
        n <= 16,
    ensures
        pow2(n) <= 65536,
    decreases 16 - n,
{
    if n < 16 {
        lemma_pow2_bound(n + 1);
        assert(pow2(n + 1) == 2 * pow2(n));
    } else {
        reveal_with_fuel(pow2, 17);
    }
}

/// The definition of `key` that the table keeps is the last one.
pub proof fn lemma_entries_map_last(e: Seq<(Seq<char>, (usize, usize))>, i: int, key: Seq<char>)
    requires
        0 <= i < e.len(),
        e[i].0 == key,
        forall|j: int| i < j < e.len() ==> e[j].0 != key,
    ensures
        entries_map(e).contains_key(key),
        entries_map(e)[key] == e[i].1,
    decreases e.len(),
{
    if i < e.len() - 1 {
        lemma_entries_map_last(e.drop_last(), i, key);
    }
}

/// A name that no definition has is not in the table.
pub proof fn lemma_entries_map_absent(e: Seq<(Seq<char>, (usize, usize))>, key: Seq<char>)
    requires
        forall|j: int| 0 <= j < e.len() ==> e[j].0 != key,
    ensures
        !entries_map(e).contains_key(key),
    decreases e.len(),
{
    if e.len() > 0 {
        lemma_entries_map_absent(e.drop_last(), key);
    }
}

} // verus!
