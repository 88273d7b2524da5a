//! The shared settings record and the per-property listener that mutates it
//! field by field.

use vstd::prelude::*;

use crate::parse::{parse_u32, parse_u32_spec, str_eq};

verus! {

/// The single mutable settings record, updated incrementally as individual
/// property-change events arrive.
#[derive(Clone, Debug)]
pub struct Settings {
    pub rate: u32,
    pub allow_rates: Vec<u32>,
    pub quantum: u32,
    pub min_quantum: u32,
    pub max_quantum: u32,
}

/// Mathematical model of a [`Settings`] record.
pub ghost struct SettingsModel {
    pub rate: u32,
    pub allow_rates: Seq<u32>,
    pub quantum: u32,
    pub min_quantum: u32,
    pub max_quantum: u32,
}

impl View for Settings {
    type V = SettingsModel;

    open spec fn view(&self) -> SettingsModel {
        SettingsModel {
            rate: self.rate,
            allow_rates: self.allow_rates@,
            quantum: self.quantum,
            min_quantum: self.min_quantum,
            max_quantum: self.max_quantum,
        }
    }
}

/// The state of the settings record before any property event arrived.
pub open spec fn default_settings() -> SettingsModel {
    SettingsModel {
        rate: 0,
        allow_rates: Seq::empty(),
        quantum: 0,
        min_quantum: 0,
        max_quantum: 0,
    }
}

impl Default for Settings {
    /// All-zero fields and no allowed rates.
    fn default() -> (r: Settings)
        ensures
            r@ == default_settings(),
    {
        let r = Settings {
            rate: 0,
            allow_rates: Vec::new(),
            quantum: 0,
            min_quantum: 0,
            max_quantum: 0,
        };
        proof {
            assert(r@.allow_rates =~= default_settings().allow_rates);
        }
        r
    }
}

/// Leading spaces removed.
pub open spec fn trim_start_spaces(s: Seq<char>) -> Seq<char>
    decreases s.len(),
{
    if s.len() > 0 && s[0] == ' ' {
        trim_start_spaces(s.drop_first())
    } else {
        s
    }
}

/// Trailing spaces removed.
pub open spec fn trim_end_spaces(s: Seq<char>) -> Seq<char>
    decreases s.len(),
{
    if s.len() > 0 && s.last() == ' ' {
        trim_end_spaces(s.drop_last())
    } else {
        s
    }
}

/// Surrounding spaces removed.
pub open spec fn trim_spaces(s: Seq<char>) -> Seq<char> {
    trim_end_spaces(trim_start_spaces(s))
}

/// Split on single spaces, keeping empty chunks, with `cur` the chunk read so
/// far.
pub open spec fn split_rec(s: Seq<char>, cur: Seq<char>) -> Seq<Seq<char>>
    decreases s.len(),
{
    if s.len() == 0 {
        seq![cur]
    } else if s[0] == ' ' {
        seq![cur] + split_rec(s.drop_first(), Seq::empty())
    } else {
        split_rec(s.drop_first(), cur.push(s[0]))
    }
}

/// The chunks of `s` between single spaces; splitting the empty string gives
/// one empty chunk.
pub open spec fn split_spaces(s: Seq<char>) -> Seq<Seq<char>> {
    split_rec(s, Seq::empty())
}

/// The value of a parse that is known to have succeeded.
pub open spec fn u32_of(o: Option<u32>) -> u32 {
    match o {
        Some(v) => v,
        None => 0,
    }
}

/// Parse every chunk as a `u32`; one failure discards the whole list.
pub open spec fn parse_all_u32(parts: Seq<Seq<char>>) -> Option<Seq<u32>> {
    if forall|i: int| 0 <= i < parts.len() ==> (#[trigger] parse_u32_spec(parts[i])) is Some {
        Some(Seq::new(parts.len(), |i: int| u32_of(parse_u32_spec(parts[i]))))
    } else {
        None
    }
}

/// What parsing an allowed-rates value means: bracket framing, the inner text
/// trimmed of surrounding spaces and split on spaces, every chunk a valid
/// `u32`.  Malformed framing or any bad chunk discards the whole update.
pub open spec fn parse_rates_spec(s: Seq<char>) -> Option<Seq<u32>> {
    if s.len() >= 2 && s[0] == '[' && s.last() == ']' {
        parse_all_u32(split_spaces(trim_spaces(s.subrange(1, s.len() - 1))))
    } else {
        None
    }
}

/// How one property event changes the settings record: a recognized key with
/// a well-formed value writes exactly its field; everything else changes
/// nothing.
pub open spec fn apply_update_spec(m: SettingsModel, key: Seq<char>, value: Seq<char>) -> SettingsModel {
    if key == "clock.rate"@ {
        match parse_u32_spec(value) {
            Some(v) => SettingsModel { rate: v, ..m },
            None => m,
        }
    } else if key == "clock.allowed-rates"@ {
        match parse_rates_spec(value) {
            Some(rs) => SettingsModel { allow_rates: rs, ..m },
            None => m,
        }
    } else if key == "clock.quantum"@ {
        match parse_u32_spec(value) {
            Some(v) => SettingsModel { quantum: v, ..m },
            None => m,
        }
    } else if key == "clock.min-quantum"@ {
        match parse_u32_spec(value) {
            Some(v) => SettingsModel { min_quantum: v, ..m },
            None => m,
        }
    } else if key == "clock.max-quantum"@ {
        match parse_u32_spec(value) {
            Some(v) => SettingsModel { max_quantum: v, ..m },
            None => m,
        }
    } else {
        m
    }
}

/// Settings fields update independently: one event writes at most the one
/// field its key names, and a malformed value leaves even that field, and so
/// the whole record, unchanged.
pub proof fn lemma_update_independent(m: SettingsModel, key: Seq<char>, value: Seq<char>)
    ensures
        key != "clock.rate"@ ==> apply_update_spec(m, key, value).rate == m.rate,
        key != "clock.allowed-rates"@ ==> apply_update_spec(m, key, value).allow_rates
            == m.allow_rates,
        key != "clock.quantum"@ ==> apply_update_spec(m, key, value).quantum == m.quantum,
        key != "clock.min-quantum"@ ==> apply_update_spec(m, key, value).min_quantum
            == m.min_quantum,
        key != "clock.max-quantum"@ ==> apply_update_spec(m, key, value).max_quantum
            == m.max_quantum,
        key == "clock.rate"@ && parse_u32_spec(value) is None ==> apply_update_spec(m, key, value)
            == m,
        key == "clock.allowed-rates"@ && parse_rates_spec(value) is None ==> apply_update_spec(
            m,
            key,
            value,
        ) == m,
        key == "clock.quantum"@ && parse_u32_spec(value) is None ==> apply_update_spec(
            m,
            key,
            value,
        ) == m,
        key == "clock.min-quantum"@ && parse_u32_spec(value) is None ==> apply_update_spec(
            m,
            key,
            value,
        ) == m,
        key == "clock.max-quantum"@ && parse_u32_spec(value) is None ==> apply_update_spec(
            m,
            key,
            value,
        ) == m,
{
    reveal_strlit("clock.rate");
    reveal_strlit("clock.allowed-rates");
    reveal_strlit("clock.quantum");
    reveal_strlit("clock.min-quantum");
    reveal_strlit("clock.max-quantum");
    assert("clock.rate"@.len() == 10);
    assert("clock.allowed-rates"@.len() == 19);
    assert("clock.quantum"@.len() == 13);
    assert("clock.min-quantum"@.len() == 17);
    assert("clock.max-quantum"@.len() == 17);
    assert("clock.min-quantum"@ != "clock.max-quantum"@) by {
        assert("clock.min-quantum"@[7] == 'i');
        assert("clock.max-quantum"@[7] == 'a');
    }
}

/// Removing leading spaces is taking the suffix after them.
proof fn lemma_trim_start(s: Seq<char>, a: int)
    requires
        0 <= a <= s.len(),
        forall|j: int| 0 <= j < a ==> s[j] == ' ',
        a == s.len() || s[a] != ' ',
    ensures
        trim_start_spaces(s) == s.subrange(a, s.len() as int),
    decreases a,
{
    if a == 0 {
        assert(s.subrange(0, s.len() as int) =~= s);
    } else {
        assert(s[0] == ' ');
        let rest = s.drop_first();
        assert(forall|j: int| 0 <= j < a - 1 ==> rest[j] == s[j + 1] && s[j + 1] == ' ');
        lemma_trim_start(rest, a - 1);
        assert(rest.subrange(a - 1, rest.len() as int) =~= s.subrange(a, s.len() as int));
    }
}

/// Removing trailing spaces is taking the prefix before them.
proof fn lemma_trim_end(s: Seq<char>, b: int)
    requires
        0 <= b <= s.len(),
        forall|j: int| b <= j < s.len() ==> s[j] == ' ',
        b == 0 || s[b - 1] != ' ',
    ensures
        trim_end_spaces(s) == s.subrange(0, b),
    decreases s.len() - b,
{
    if b == s.len() {
        assert(s.subrange(0, b) =~= s);
    } else {
        assert(s.last() == ' ');
        let rest = s.drop_last();
        assert(forall|j: int| b <= j < rest.len() ==> rest[j] == s[j] && s[j] == ' ');
        lemma_trim_end(rest, b);
        assert(rest.subrange(0, b) =~= s.subrange(0, b));
    }
}

/// Parse an allowed-rates value, exactly as [`parse_rates_spec`] states.
pub fn parse_rates(s: &str) -> (r: Option<Vec<u32>>)
    ensures
        match r {
            Some(v) => parse_rates_spec(s@) == Some(v@),
            None => parse_rates_spec(s@) is None,
        },
{
    let n = s.unicode_len();
    if n < 2 {
        return None;
    }
    if s.get_char(0) != '[' || s.get_char(n - 1) != ']' {
        return None;
    }
    let inner = s.substring_char(1, n - 1);
    let ni = inner.unicode_len();
    // trim surrounding spaces
    let mut a: usize = 0;
    while a < ni && inner.get_char(a) == ' '
        invariant
            ni == inner@.len(),
            a <= ni,
            forall|j: int| 0 <= j < a ==> inner@[j] == ' ',
        decreases ni - a,
    {
        a = a + 1;
    }
    let mut b: usize = ni;
    while b > a && inner.get_char(b - 1) == ' '
        invariant
            ni == inner@.len(),
            a <= b <= ni,
            forall|j: int| b <= j < ni ==> inner@[j] == ' ',
        decreases b,
    {
        b = b - 1;
    }
    proof {
        lemma_trim_start(inner@, a as int);
        let t1 = inner@.subrange(a as int, ni as int);
        assert(forall|j: int|
            b - a <= j < t1.len() ==> t1[j] == inner@[#[trigger] (j + a)] && inner@[j + a] == ' ');
        assert(b - a == 0 || t1[b - a - 1] != ' ');
        lemma_trim_end(t1, b - a);
        assert(t1.subrange(0, b - a) =~= inner@.subrange(a as int, b as int));
    }
    let trimmed = inner.substring_char(a, b);
    let ghost t = trimmed@;
    proof {
        assert(t == trim_spaces(inner@));
    }
    let m = trimmed.unicode_len();
    let mut rates: Vec<u32> = Vec::new();
    let mut start: usize = 0;
    let mut i: usize = 0;
    let ghost mut done: Seq<Seq<char>> = Seq::empty();
    proof {
        assert(t.subrange(0, m as int) =~= t);
        assert(t.subrange(0, 0) =~= Seq::<char>::empty());
        assert(split_spaces(t) =~= done + split_rec(t.subrange(0, m as int), t.subrange(0, 0)));
    }
    while i < m
        invariant
            m == t.len(),
            t == trimmed@,
            start <= i <= m,
            split_spaces(t) == done + split_rec(
                t.subrange(i as int, m as int),
                t.subrange(start as int, i as int),
            ),
            forall|k: int| 0 <= k < done.len() ==> (#[trigger] parse_u32_spec(done[k])) is Some,
            rates@.len() == done.len(),
            forall|k: int|
                0 <= k < done.len() ==> rates@[k] == u32_of(#[trigger] parse_u32_spec(done[k])),
            parse_rates_spec(s@) == parse_all_u32(split_spaces(t)),
        decreases m - i,
    {
        let ghost rest = t.subrange(i as int, m as int);
        let ghost cur = t.subrange(start as int, i as int);
        proof {
            assert(rest[0] == t[i as int]);
            assert(rest.drop_first() =~= t.subrange(i as int + 1, m as int));
        }
        if trimmed.get_char(i) == ' ' {
            let part = trimmed.substring_char(start, i);
            match parse_u32(part) {
                None => {
                    proof {
                        let parts = split_spaces(t);
                        assert(parts[done.len() as int] == cur);
                        assert(parse_u32_spec(parts[done.len() as int]) is None);
                    }
                    return None;
                },
                Some(v) => {
                    rates.push(v);
                    proof {
                        done = done.push(cur);
                        assert(done + split_rec(
                            t.subrange(i as int + 1, m as int),
                            Seq::<char>::empty(),
                        ) =~= (done.drop_last() + (seq![cur] + split_rec(
                            t.subrange(i as int + 1, m as int),
                            Seq::<char>::empty(),
                        ))));
                        assert(t.subrange(i as int + 1, i as int + 1) =~= Seq::<char>::empty());
                    }
                    start = i + 1;
                },
            }
        } else {
            proof {
                assert(cur.push(t[i as int]) =~= t.subrange(start as int, i as int + 1));
            }
        }
        i = i + 1;
    }
    let part = trimmed.substring_char(start, m);
    let ghost cur = t.subrange(start as int, m as int);
    proof {
        assert(t.subrange(m as int, m as int) =~= Seq::<char>::empty());
        assert(split_spaces(t) =~= done.push(cur));
    }
    match parse_u32(part) {
        None => {
            proof {
                let parts = split_spaces(t);
                assert(parts[done.len() as int] == cur);
                assert(parse_u32_spec(parts[done.len() as int]) is None);
            }
            None
        },
        Some(v) => {
            rates.push(v);
            proof {
                let parts = split_spaces(t);
                assert(forall|k: int|
                    0 <= k < parts.len() ==> (#[trigger] parse_u32_spec(parts[k])) is Some);
                assert(Seq::new(parts.len(), |k: int| u32_of(parse_u32_spec(parts[k])))
                    =~= rates@);
            }
            Some(rates)
        },
    }
}

impl Settings {
    /// Apply one property-change event to the record, exactly as
    /// [`apply_update_spec`] states: unrecognized keys and malformed values
    /// change nothing.
    pub fn apply_update(&mut self, key: &str, value: &str)
        ensures
            final(self)@ == apply_update_spec(old(self)@, key@, value@),
    {
        if str_eq(key, "clock.rate") {
            match parse_u32(value) {
                Some(v) => {
                    self.rate = v;
                },
                None => {},
            }
        } else if str_eq(key, "clock.allowed-rates") {
            match parse_rates(value) {
                Some(rs) => {
                    self.allow_rates = rs;
                },
                None => {},
            }
        } else if str_eq(key, "clock.quantum") {
            match parse_u32(value) {
                Some(v) => {
                    self.quantum = v;
                },
                None => {},
            }
        } else if str_eq(key, "clock.min-quantum") {
            match parse_u32(value) {
                Some(v) => {
                    self.min_quantum = v;
                },
                None => {},
            }
        } else if str_eq(key, "clock.max-quantum") {
            match parse_u32(value) {
                Some(v) => {
                    self.max_quantum = v;
                },
                None => {},
            }
        }
    }
}

} // verus!
