use crate::type_registry::ShortTypeId;
use vstd::prelude::*;

verus! {

/// Identifies one peer of the networking topology.
#[derive(Copy, Clone, PartialEq, Eq, Structural, PartialOrd, Ord, Debug, Hash)]
pub struct MachineID(pub u8);

/// An untyped id of one actor instance, or of a broadcast to a whole class.
#[derive(Copy, Clone, PartialEq, Eq, Structural, Debug, Hash)]
pub struct RawID {
    /// The instance within its class.
    pub instance_id: u32,
    /// The class (or actor trait) the id belongs to.
    pub type_id: ShortTypeId,
    /// The peer the instance lives on.
    pub machine: MachineID,
    /// Tells apart the successive owners of one `instance_id`.
    pub version: u8,
}

/// The four numbers of a `RawID`.
pub struct RawIDView {
    pub type_id: u16,
    pub instance_id: u32,
    pub machine: u8,
    pub version: u8,
}

impl View for RawID {
    type V = RawIDView;

    open spec fn view(&self) -> RawIDView {
        RawIDView {
            type_id: self.type_id@,
            instance_id: self.instance_id,
            machine: self.machine.0,
            version: self.version,
        }
    }
}

/// Why a text is not the string form of a number.
#[derive(Copy, Clone, PartialEq, Eq, Structural, Debug)]
pub enum IntErrorKind {
    /// The text is empty.
    Empty,
    /// A character is no hexadecimal digit (or the text is a lone sign).
    InvalidDigit,
    /// The number does not fit its field.
    PosOverflow,
}

/// Why a text is not the string form of a `RawID`.
#[derive(Copy, Clone, PartialEq, Eq, Structural, Debug)]
pub enum ParseRawIDError {
    /// The text has fewer than four parts.
    Format,
    /// The type id is zero.
    InvalidTypeId,
    /// A part is no number of its field's width.
    ParseIntError(IntErrorKind),
}

/// The instance id that addresses every instance of a class.
pub open spec fn spec_broadcast_instance_id() -> u32 {
    0xFFFF_FFFF
}

/// The machine id that addresses every peer.
pub open spec fn spec_broadcast_machine_id() -> u8 {
    0xFF
}

/// The instance id that addresses every instance of a class.
#[verifier::when_used_as_spec(spec_broadcast_instance_id)]
pub fn broadcast_instance_id() -> (id: u32)
    ensures
        id == spec_broadcast_instance_id(),
{
    u32::MAX
}

/// The machine id that addresses every peer.
pub fn broadcast_machine_id() -> (id: MachineID)
    ensures
        id.0 == spec_broadcast_machine_id(),
{
    MachineID(u8::MAX)
}

// ---------------------------------------------------------------------------
// The string form: four upper-case hexadecimal numbers, `type_instance.version@machine`
// ---------------------------------------------------------------------------
/// The upper-case hexadecimal digit of a value below 16.
pub open spec fn hex_char(d: int) -> char {
    if d == 0 {
        '0'
    } else if d == 1 {
        '1'
    } else if d == 2 {
        '2'
    } else if d == 3 {
        '3'
    } else if d == 4 {
        '4'
    } else if d == 5 {
        '5'
    } else if d == 6 {
        '6'
    } else if d == 7 {
        '7'
    } else if d == 8 {
        '8'
    } else if d == 9 {
        '9'
    } else if d == 10 {
        'A'
    } else if d == 11 {
        'B'
    } else if d == 12 {
        'C'
    } else if d == 13 {
        'D'
    } else if d == 14 {
        'E'
    } else {
        'F'
    }
}

/// The value of a hexadecimal digit of either case.
pub open spec fn hex_value(c: char) -> Option<int> {
    let n = c as u32;
    if 48 <= n <= 57 {
        Some(n - 48)
    } else if 65 <= n <= 70 {
        Some(n - 55)
    } else if 97 <= n <= 102 {
        Some(n - 87)
    } else {
        None
    }
}

/// A number in upper-case hexadecimal without leading zeros.
pub open spec fn hex_digits(n: nat) -> Seq<char>
    decreases n,
{
    if n < 16 {
        seq![hex_char(n as int)]
    } else {
        hex_digits(n / 16).push(hex_char((n % 16) as int))
    }
}

/// The string form of an id.
pub open spec fn raw_id_text(id: RawIDView) -> Seq<char> {
    hex_digits(id.type_id as nat) + seq!['_'] + hex_digits(id.instance_id as nat) + seq!['.']
        + hex_digits(id.version as nat) + seq!['@'] + hex_digits(id.machine as nat)
}

/// The characters that end a part of an id's string form.
pub open spec fn is_separator(c: char) -> bool {
    c == '_' || c == '.' || c == '@'
}

/// The index of the first separator at or after `from`, or `from` itself
/// where the text ends before.
pub open spec fn next_separator(s: Seq<char>, from: int) -> int
    decreases s.len() - from,
{
    if from >= s.len() || from < 0 {
        from
    } else if is_separator(s[from]) {
        from
    } else {
        next_separator(s, from + 1)
    }
}

/// Reads digits from the left onto `acc` and stops at the first character
/// that is no digit or that takes the number above `max`.
pub open spec fn parse_digits(s: Seq<char>, acc: nat, max: nat) -> Result<nat, IntErrorKind>
    decreases s.len(),
{
    if s.len() == 0 {
        Ok(acc)
    } else {
        match hex_value(s[0]) {
            None => Err(IntErrorKind::InvalidDigit),
            Some(d) => if acc * 16 + d > max {
                Err(IntErrorKind::PosOverflow)
            } else {
                parse_digits(s.subrange(1, s.len() as int), (acc * 16 + d) as nat, max)
            },
        }
    }
}

/// The number that a part stands for: hexadecimal digits of either case,
/// after at most one `+`.
pub open spec fn parse_hex(s: Seq<char>, max: nat) -> Result<nat, IntErrorKind> {
    if s.len() == 0 {
        Err(IntErrorKind::Empty)
    } else if s.len() == 1 && (s[0] == '+' || s[0] == '-') {
        Err(IntErrorKind::InvalidDigit)
    } else if s[0] == '+' {
        parse_digits(s.subrange(1, s.len() as int), 0, max)
    } else {
        parse_digits(s, 0, max)
    }
}

/// What a text means as an id. The first four parts count, whichever of the
/// separators stands between them; the parts are read in the order type,
/// instance, version, machine, and the first that fails gives the error.
pub open spec fn parse_raw_id(s: Seq<char>) -> Result<RawIDView, ParseRawIDError> {
    let a = next_separator(s, 0);
    let b = next_separator(s, a + 1);
    let c = next_separator(s, b + 1);
    let d = next_separator(s, c + 1);
    if a >= s.len() || b >= s.len() || c >= s.len() {
        Err(ParseRawIDError::Format)
    } else {
        match parse_hex(s.subrange(0, a), 0xFFFF) {
            Err(e) => Err(ParseRawIDError::ParseIntError(e)),
            Ok(type_id) => if type_id == 0 {
                Err(ParseRawIDError::InvalidTypeId)
            } else {
                match parse_hex(s.subrange(a + 1, b), 0xFFFF_FFFF) {
                    Err(e) => Err(ParseRawIDError::ParseIntError(e)),
                    Ok(instance_id) => match parse_hex(s.subrange(b + 1, c), 0xFF) {
                        Err(e) => Err(ParseRawIDError::ParseIntError(e)),
                        Ok(version) => match parse_hex(s.subrange(c + 1, d), 0xFF) {
                            Err(e) => Err(ParseRawIDError::ParseIntError(e)),
                            Ok(machine) => Ok(
                                RawIDView {
                                    type_id: type_id as u16,
                                    instance_id: instance_id as u32,
                                    machine: machine as u8,
                                    version: version as u8,
                                },
                            ),
                        },
                    },
                }
            },
        }
    }
}

impl RawID {
    /// An id from its parts.
    pub fn new(type_id: ShortTypeId, instance_id: u32, machine: MachineID, version: u8) -> (id:
        RawID)
        ensures
            id == (RawID { type_id, instance_id, machine, version }),
    {
        RawID { type_id, machine, version, instance_id }
    }

    /// The id that addresses every instance of this id's class on this id's machine.
    pub fn local_broadcast(&self) -> (id: RawID)
        ensures
            id == (RawID { instance_id: spec_broadcast_instance_id(), ..*self }),
    {
        RawID { instance_id: broadcast_instance_id(), ..*self }
    }

    /// The id that addresses every instance of this id's class on every machine.
    pub fn global_broadcast(&self) -> (id: RawID)
        ensures
            id == (RawID {
                instance_id: spec_broadcast_instance_id(),
                machine: MachineID(spec_broadcast_machine_id()),
                ..*self
            }),
    {
        RawID { machine: broadcast_machine_id(), ..self.local_broadcast() }
    }

    /// Whether the id addresses a whole class, on one machine or on all.
    pub open spec fn spec_is_broadcast(&self) -> bool {
        self.instance_id == spec_broadcast_instance_id()
    }

    /// Whether the id addresses every instance of its class on every
    /// machine: it names all machines and all instances.
    pub open spec fn spec_is_global_broadcast(&self) -> bool {
        self.machine.0 == spec_broadcast_machine_id() && self.instance_id
            == spec_broadcast_instance_id()
    }

    /// Whether the id addresses a whole class, on one machine or on all.
    #[verifier::when_used_as_spec(spec_is_broadcast)]
    pub fn is_broadcast(&self) -> (b: bool)
        ensures
            b == self.spec_is_broadcast(),
    {
        self.instance_id == broadcast_instance_id()
    }

    /// Whether the id addresses every instance of its class on every
    /// machine: it names all machines and all instances.
    #[verifier::when_used_as_spec(spec_is_global_broadcast)]
    pub fn is_global_broadcast(&self) -> (b: bool)
        ensures
            b == self.spec_is_global_broadcast(),
    {
        self.machine.0 == broadcast_machine_id().0 && self.instance_id == broadcast_instance_id()
    }

    /// The string form `type_instance.version@machine`, each number in
    /// upper-case hexadecimal.
    pub fn to_string(&self) -> (text: String)
        ensures
            text@ == raw_id_text(self@),
    {
        let mut text = String::new();
        push_hex(&mut text, self.type_id.as_u16() as u32);
        append_char_underscore(&mut text);
        push_hex(&mut text, self.instance_id);
        append_char_dot(&mut text);
        push_hex(&mut text, self.version as u32);
        append_char_at(&mut text);
        push_hex(&mut text, self.machine.0 as u32);
        text
    }

    /// The string form with the class's name in place of its number.
    pub fn format(&self, actor_name: &str) -> (text: String)
        ensures
            text@ == actor_name@ + seq!['_'] + hex_digits(self.instance_id as nat) + seq!['.']
                + hex_digits(self.version as nat) + seq!['@'] + hex_digits(self.machine.0 as nat),
    {
        let mut text = String::from_str(actor_name);
        append_char_underscore(&mut text);
        push_hex(&mut text, self.instance_id);
        append_char_dot(&mut text);
        push_hex(&mut text, self.version as u32);
        append_char_at(&mut text);
        push_hex(&mut text, self.machine.0 as u32);
        text
    }

    /// Reads an id from its string form.
    pub fn from_str(s: &str) -> (r: Result<RawID, ParseRawIDError>)
        ensures
            match parse_raw_id(s@) {
                Ok(v) => r matches Ok(id) && id@ == v,
                Err(e) => r == Err::<RawID, ParseRawIDError>(e),
            },
    {
        let v = collect_chars(s);
        let n = v.len();
        let a = find_separator(&v, 0);
        if a >= n {
            return Err(ParseRawIDError::Format);
        }
        let b = find_separator(&v, a + 1);
        if b >= n {
            return Err(ParseRawIDError::Format);
        }
        let c = find_separator(&v, b + 1);
        if c >= n {
            return Err(ParseRawIDError::Format);
        }
        let d = find_separator(&v, c + 1);
        let type_number = match parse_hex_range(&v, 0, a, 0xFFFF) {
            Ok(t) => t,
            Err(e) => {
                return Err(ParseRawIDError::ParseIntError(e));
            },
        };
        let type_id = match ShortTypeId::new(type_number as u16) {
            Some(t) => t,
            None => {
                return Err(ParseRawIDError::InvalidTypeId);
            },
        };
        let instance_id = match parse_hex_range(&v, a + 1, b, 0xFFFF_FFFF) {
            Ok(i) => i,
            Err(e) => {
                return Err(ParseRawIDError::ParseIntError(e));
            },
        };
        let version = match parse_hex_range(&v, b + 1, c, 0xFF) {
            Ok(i) => i,
            Err(e) => {
                return Err(ParseRawIDError::ParseIntError(e));
            },
        };
        let machine = match parse_hex_range(&v, c + 1, d, 0xFF) {
            Ok(i) => i,
            Err(e) => {
                return Err(ParseRawIDError::ParseIntError(e));
            },
        };
        Ok(RawID { type_id, instance_id, machine: MachineID(machine as u8), version: version as u8 })
    }
}

/// A `RawID` with the class or trait of its instance known at compile time.
pub trait TypedID: Copy + Sized {
    /// The id without its type.
    fn as_raw(&self) -> RawID;

    /// The typed id for a raw id. The caller knows that the raw id refers to
    /// an instance of the right class or trait.
    fn from_raw(raw: RawID) -> Self;

    /// The string form of the id: that of the raw id that `as_raw` gives.
    fn as_raw_string(&self) -> (text: String)
        ensures
            exists|raw: RawID| #[trigger]
                call_ensures(<Self as TypedID>::as_raw, (self,), raw) && text@ == raw_id_text(
                    raw@,
                ),
    {
        self.as_raw().to_string()
    }

    /// The typed id for the string form of a raw id: what `from_raw` makes
    /// of the raw id that the text stands for, and the error of the text
    /// where it stands for none.
    fn from_raw_str(raw_str: &str) -> (r: Result<Self, ParseRawIDError>)
        ensures
            match parse_raw_id(raw_str@) {
                Ok(v) => r is Ok && exists|raw: RawID| #[trigger]
                    call_ensures(<Self as TypedID>::from_raw, (raw,), r->Ok_0) && raw@ == v,
                Err(e) => r is Err && r->Err_0 == e,
            },
    {
        match RawID::from_str(raw_str) {
            Ok(raw) => {
                let id = Self::from_raw(raw);
                let r = Ok(id);
                assert(call_ensures(<Self as TypedID>::from_raw, (raw,), r->Ok_0) && raw@
                    == parse_raw_id(raw_str@)->Ok_0);
                r
            },
            Err(e) => Err(e),
        }
    }
}

fn append_char_underscore(text: &mut String)
    ensures
        final(text)@ == old(text)@ + seq!['_'],
{
    proof {
        reveal_strlit("_");
    }
    text.append("_");
    assert("_"@ =~= seq!['_']);
}

fn append_char_dot(text: &mut String)
    ensures
        final(text)@ == old(text)@ + seq!['.'],
{
    proof {
        reveal_strlit(".");
    }
    text.append(".");
    assert("."@ =~= seq!['.']);
}

fn append_char_at(text: &mut String)
    ensures
        final(text)@ == old(text)@ + seq!['@'],
{
    proof {
        reveal_strlit("@");
    }
    text.append("@");
    assert("@"@ =~= seq!['@']);
}

fn digit_str(d: u32) -> (s: &'static str)
    requires
        d < 16,
    ensures
        s@ == seq![hex_char(d as int)],
{
    proof {
        reveal_strlit("0");
        reveal_strlit("1");
        reveal_strlit("2");
        reveal_strlit("3");
        reveal_strlit("4");
        reveal_strlit("5");
        reveal_strlit("6");
        reveal_strlit("7");
        reveal_strlit("8");
        reveal_strlit("9");
        reveal_strlit("A");
        reveal_strlit("B");
        reveal_strlit("C");
        reveal_strlit("D");
        reveal_strlit("E");
        reveal_strlit("F");
    }
    let s = if d == 0 {
        "0"
    } else if d == 1 {
        "1"
    } else if d == 2 {
        "2"
    } else if d == 3 {
        "3"
    } else if d == 4 {
        "4"
    } else if d == 5 {
        "5"
    } else if d == 6 {
        "6"
    } else if d == 7 {
        "7"
    } else if d == 8 {
        "8"
    } else if d == 9 {
        "9"
    } else if d == 10 {
        "A"
    } else if d == 11 {
        "B"
    } else if d == 12 {
        "C"
    } else if d == 13 {
        "D"
    } else if d == 14 {
        "E"
    } else {
        "F"
    };
    assert(s@ =~= seq![hex_char(d as int)]);
    s
}

/// Appends a number in upper-case hexadecimal.
fn push_hex(text: &mut String, n: u32)
    ensures
        final(text)@ == old(text)@ + hex_digits(n as nat),
    decreases n,
{
    if n >= 16 {
        push_hex(text, n / 16);
    }
    text.append(digit_str(n % 16));
    assert(text@ =~= old(text)@ + hex_digits(n as nat));
}

fn collect_chars(s: &str) -> (v: Vec<char>)
    ensures
        v@ == s@,
{
    let n = s.unicode_len();
    let mut v: Vec<char> = Vec::new();
    let mut i: usize = 0;
    while i < n
        invariant
            n == s@.len(),
            i <= n,
            v@ == s@.subrange(0, i as int),
        decreases n - i,
    {
        v.push(s.get_char(i));
        i += 1;
        assert(v@ =~= s@.subrange(0, i as int));
    }
    assert(v@ =~= s@);
    v
}

fn find_separator(v: &Vec<char>, from: usize) -> (r: usize)
    requires
        from <= v.len(),
    ensures
        r == next_separator(v@, from as int),
        from <= r <= v.len(),
{
    let mut i: usize = from;
    while i < v.len() && !(v[i] == '_' || v[i] == '.' || v[i] == '@')
        invariant
            from <= i <= v.len(),
            next_separator(v@, from as int) == next_separator(v@, i as int),
        decreases v.len() - i,
    {
        i += 1;
    }
    i
}

fn digit_value(c: char) -> (r: Option<u32>)
    ensures
        match hex_value(c) {
            Some(d) => r == Some(d as u32) && d < 16,
            None => r is None,
        },
{
    let n = c as u32;
    if 48 <= n && n <= 57 {
        Some(n - 48)
    } else if 65 <= n && n <= 70 {
        Some(n - 55)
    } else if 97 <= n && n <= 102 {
        Some(n - 87)
    } else {
        None
    }
}

fn parse_hex_range(v: &Vec<char>, lo: usize, hi: usize, max: u32) -> (r: Result<
    u32,
    IntErrorKind,
>)
    requires
        lo <= hi <= v.len(),
    ensures
        match parse_hex(v@.subrange(lo as int, hi as int), max as nat) {
            Ok(n) => r == Ok::<u32, IntErrorKind>(n as u32) && n <= max,
            Err(e) => r == Err::<u32, IntErrorKind>(e),
        },
{
    let ghost s = v@.subrange(lo as int, hi as int);
    if lo == hi {
        return Err(IntErrorKind::Empty);
    }
    assert(s[0] == v@[lo as int]);
    if hi - lo == 1 && (v[lo] == '+' || v[lo] == '-') {
        return Err(IntErrorKind::InvalidDigit);
    }
    let start: usize = if v[lo] == '+' {
        lo + 1
    } else {
        lo
    };
    assert(s.subrange(1, s.len() as int) =~= v@.subrange(lo + 1, hi as int));
    let mut i: usize = start;
    let mut acc: u32 = 0;
    while i < hi
        invariant
            lo <= start <= i <= hi <= v.len(),
            acc <= max,
            parse_hex(v@.subrange(lo as int, hi as int), max as nat) == parse_digits(
                v@.subrange(start as int, hi as int),
                0,
                max as nat,
            ),
            parse_digits(v@.subrange(start as int, hi as int), 0, max as nat) == parse_digits(
                v@.subrange(i as int, hi as int),
                acc as nat,
                max as nat,
            ),
        decreases hi - i,
    {
        let ghost rest = v@.subrange(i as int, hi as int);
        assert(rest[0] == v@[i as int]);
        assert(rest.subrange(1, rest.len() as int) =~= v@.subrange(i + 1, hi as int));
        match digit_value(v[i]) {
            None => {
                return Err(IntErrorKind::InvalidDigit);
            },
            Some(d) => {
                let next: u64 = acc as u64 * 16 + d as u64;
                if next > max as u64 {
                    return Err(IntErrorKind::PosOverflow);
                }
                acc = next as u32;
            },
        }
        i += 1;
    }
    assert(v@.subrange(hi as int, hi as int).len() == 0);
    Ok(acc)
}

// ---------------------------------------------------------------------------
// Reading what was written
// ---------------------------------------------------------------------------
proof fn lemma_hex_char_value(d: int)
    requires
        0 <= d < 16,
    ensures
        hex_value(hex_char(d)) == Some(d),
        !is_separator(hex_char(d)),
        hex_char(d) != '+',
        hex_char(d) != '-',
{
}

proof fn lemma_hex_digits_chars(n: nat)
    ensures
        hex_digits(n).len() >= 1,
        forall|i: int|
            0 <= i < hex_digits(n).len() ==> {
                let c = #[trigger] hex_digits(n)[i];
                hex_value(c) is Some && !is_separator(c) && c != '+' && c != '-'
            },
    decreases n,
{
    if n < 16 {
        lemma_hex_char_value(n as int);
    } else {
        lemma_hex_digits_chars(n / 16);
        lemma_hex_char_value((n % 16) as int);
    }
}

proof fn lemma_parse_digits_push(s: Seq<char>, c: char, acc: nat, max: nat)
    requires
        hex_value(c) is Some,
    ensures
        parse_digits(s.push(c), acc, max) == match parse_digits(s, acc, max) {
            Ok(v) => if v * 16 + hex_value(c).unwrap() > max {
                Err(IntErrorKind::PosOverflow)
            } else {
                Ok((v * 16 + hex_value(c).unwrap()) as nat)
            },
            Err(e) => Err(e),
        },
    decreases s.len(),
{
    let t = s.push(c);
    reveal_with_fuel(parse_digits, 3);
    if s.len() == 0 {
        assert(t[0] == c);
        assert(t.subrange(1, t.len() as int).len() == 0);
        let d = hex_value(c).unwrap();
        assert(parse_digits(s, acc, max) == Ok::<nat, IntErrorKind>(acc));
        if acc * 16 + d <= max {
            assert(parse_digits(t.subrange(1, t.len() as int), (acc * 16 + d) as nat, max) == Ok::<
                nat,
                IntErrorKind,
            >((acc * 16 + d) as nat));
        }
    } else {
        assert(t[0] == s[0]);
        assert(t.subrange(1, t.len() as int) =~= s.subrange(1, s.len() as int).push(c));
        match hex_value(s[0]) {
            None => {},
            Some(d) => {
                if acc * 16 + d <= max {
                    lemma_parse_digits_push(
                        s.subrange(1, s.len() as int),
                        c,
                        (acc * 16 + d) as nat,
                        max,
                    );
                }
            },
        }
    }
}

proof fn lemma_parse_hex_digits(n: nat, max: nat)
    requires
        n <= max,
    ensures
        parse_digits(hex_digits(n), 0, max) == Ok::<nat, IntErrorKind>(n),
        parse_hex(hex_digits(n), max) == Ok::<nat, IntErrorKind>(n),
    decreases n,
{
    lemma_hex_digits_chars(n);
    let h = hex_digits(n);
    assert(hex_value(h[0]) is Some && h[0] != '+' && h[0] != '-');
    if n < 16 {
        reveal_with_fuel(parse_digits, 3);
        lemma_hex_char_value(n as int);
        assert(h[0] == hex_char(n as int));
        assert(h.subrange(1, h.len() as int).len() == 0);
        assert(parse_digits(h.subrange(1, h.len() as int), n, max) == Ok::<nat, IntErrorKind>(n));
    } else {
        lemma_parse_hex_digits(n / 16, max);
        lemma_hex_char_value((n % 16) as int);
        lemma_parse_digits_push(hex_digits(n / 16), hex_char((n % 16) as int), 0, max);
        assert((n / 16) * 16 + n % 16 == n);
    }
}

proof fn lemma_next_separator(s: Seq<char>, from: int, idx: int)
    requires
        0 <= from <= idx <= s.len(),
        forall|j: int| from <= j < idx ==> !is_separator(#[trigger] s[j]),
        idx == s.len() || is_separator(s[idx]),
    ensures
        next_separator(s, from) == idx,
    decreases idx - from,
{
    if from < idx {
        lemma_next_separator(s, from + 1, idx);
    }
}

/// Reading the string form of an id gives the id back: `from_str` undoes
/// `to_string` on every id whose type id is not zero.
pub proof fn lemma_string_round_trip(id: RawIDView)
    requires
        id.type_id != 0,
    ensures
        parse_raw_id(raw_id_text(id)) == Ok::<RawIDView, ParseRawIDError>(id),
{
    let h0 = hex_digits(id.type_id as nat);
    let h1 = hex_digits(id.instance_id as nat);
    let h2 = hex_digits(id.version as nat);
    let h3 = hex_digits(id.machine as nat);
    let s = raw_id_text(id);
    let a = h0.len() as int;
    let b = a + 1 + h1.len();
    let c = b + 1 + h2.len();
    let d = c + 1 + h3.len();
    lemma_hex_digits_chars(id.type_id as nat);
    lemma_hex_digits_chars(id.instance_id as nat);
    lemma_hex_digits_chars(id.version as nat);
    lemma_hex_digits_chars(id.machine as nat);
    assert(s.len() == d);
    assert(s[a] == '_' && s[b] == '.' && s[c] == '@');
    assert(s.subrange(0, a) =~= h0);
    assert(s.subrange(a + 1, b) =~= h1);
    assert(s.subrange(b + 1, c) =~= h2);
    assert(s.subrange(c + 1, d) =~= h3);
    assert forall|j: int| 0 <= j < a implies !is_separator(#[trigger] s[j]) by {
        assert(s[j] == h0[j]);
    }
    assert forall|j: int| a + 1 <= j < b implies !is_separator(#[trigger] s[j]) by {
        assert(s[j] == h1[j - a - 1]);
    }
    assert forall|j: int| b + 1 <= j < c implies !is_separator(#[trigger] s[j]) by {
        assert(s[j] == h2[j - b - 1]);
    }
    assert forall|j: int| c + 1 <= j < d implies !is_separator(#[trigger] s[j]) by {
        assert(s[j] == h3[j - c - 1]);
    }
    lemma_next_separator(s, 0, a);
    lemma_next_separator(s, a + 1, b);
    lemma_next_separator(s, b + 1, c);
    lemma_next_separator(s, c + 1, d);
    lemma_parse_hex_digits(id.type_id as nat, 0xFFFF);
    lemma_parse_hex_digits(id.instance_id as nat, 0xFFFF_FFFF);
    lemma_parse_hex_digits(id.version as nat, 0xFF);
    lemma_parse_hex_digits(id.machine as nat, 0xFF);
}

} // verus!
