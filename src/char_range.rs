use vstd::prelude::*;
use vstd::std_specs::iter::IteratorSpec;
use vstd::string::*;

verus! {

broadcast use vstd::string::group_string_axioms;

/// The characters of `s`, in order.
pub fn chars_of(s: &str) -> (r: Vec<char>)
    ensures
        r@ == s@,
{
    let mut out: Vec<char> = Vec::new();
    let mut it = s.chars();
    loop
        invariant
            it.obeys_prophetic_iter_laws(),
            it.decrease() is Some,
            out@ + it.remaining() == s@,
        ensures
            out@ == s@,
        decreases it.decrease()->0,
    {
        match it.next() {
            Some(c) => {
                out.push(c);
            },
            None => {
                assert(out@ + it.remaining() =~= out@);
                break;
            },
        }
    }
    out
}

/// Whether `c` has the Unicode `White_Space` property.
pub open spec fn is_white_space(c: char) -> bool {
    let v = c as u32;
    (0x9 <= v <= 0xd) || v == 0x20 || v == 0x85 || v == 0xa0 || v == 0x1680 || (0x2000 <= v
        <= 0x200a) || v == 0x2028 || v == 0x2029 || v == 0x202f || v == 0x205f || v == 0x3000
}

fn check_white_space(c: char) -> (r: bool)
    ensures
        r == is_white_space(c),
{
    let v = c as u32;
    (0x9 <= v && v <= 0xd) || v == 0x20 || v == 0x85 || v == 0xa0 || v == 0x1680 || (0x2000 <= v
        && v <= 0x200a) || v == 0x2028 || v == 0x2029 || v == 0x202f || v == 0x205f || v == 0x3000
}

/// Characters of `s` with leading and trailing white space removed, as `str::trim` does.
pub open spec fn trim(s: Seq<char>) -> Seq<char> {
    trim_end(trim_start(s))
}

pub open spec fn trim_start(s: Seq<char>) -> Seq<char>
    decreases s.len(),
{
    if s.len() > 0 && is_white_space(s[0]) {
        trim_start(s.drop_first())
    } else {
        s
    }
}

pub open spec fn trim_end(s: Seq<char>) -> Seq<char>
    decreases s.len(),
{
    if s.len() > 0 && is_white_space(s.last()) {
        trim_end(s.drop_last())
    } else {
        s
    }
}

/// Whether `s` begins with the two characters `0x`.
pub open spec fn has_hex_prefix(s: Seq<char>) -> bool {
    s.len() >= 2 && s[0] == '0' && s[1] == 'x'
}

/// The value of a base-16 digit (either case), or -1 for any other character.
pub open spec fn hex_digit_value(c: char) -> int {
    let v = c as u32;
    if 0x30 <= v <= 0x39 {
        v - 0x30
    } else if 0x61 <= v <= 0x66 {
        v - 0x61 + 10
    } else if 0x41 <= v <= 0x46 {
        v - 0x41 + 10
    } else {
        -1
    }
}

pub open spec fn is_hex_digit(c: char) -> bool {
    hex_digit_value(c) >= 0
}

/// The number that a string of base-16 digits denotes.
pub open spec fn hex_value(d: Seq<char>) -> int
    decreases d.len(),
{
    if d.len() == 0 {
        0
    } else {
        hex_value(d.drop_last()) * 16 + hex_digit_value(d.last())
    }
}

/// Whether `d` is a non-empty string of base-16 digits, with no sign, whose value fits
/// in a `u32`.
pub open spec fn is_u32_hex(d: Seq<char>) -> bool {
    &&& d.len() > 0
    &&& forall|i: int| 0 <= i < d.len() ==> is_hex_digit(#[trigger] d[i])
    &&& hex_value(d) <= u32::MAX
}

/// An error of the range parser: the offending text and a description.
#[derive(Debug)]
pub struct ParseError {
    pub input: String,
    pub message: String,
}

impl View for ParseError {
    type V = (Seq<char>, Seq<char>);

    open spec fn view(&self) -> (Seq<char>, Seq<char>) {
        (self.input@, self.message@)
    }
}

/// What reading one character code out of `s` gives: its value, or the offending
/// text with a message. The one `0x` prefix is removed, and all that follows must be
/// base-16 digits.
pub open spec fn single_code(s: Seq<char>) -> Result<u32, (Seq<char>, Seq<char>)> {
    let t = trim(s);
    if !has_hex_prefix(t) {
        Err((t, "Number "@ + t + " doesn't start with 0x"@))
    } else {
        let d = t.subrange(2, t.len() as int);
        if is_u32_hex(d) {
            Ok(hex_value(d) as u32)
        } else {
            Err((d, "Number "@ + d + " could not be parsed as a hexadecimal number."@))
        }
    }
}

pub open spec fn code_result_view(r: Result<u32, ParseError>) -> Result<u32, (Seq<char>, Seq<char>)> {
    match r {
        Ok(v) => Ok(v),
        Err(e) => Err(e@),
    }
}

/// Bounds `[a, b)` of `v` once leading and trailing white space is left out.
fn trimmed_bounds(v: &Vec<char>) -> (r: (usize, usize))
    ensures
        r.0 <= r.1 <= v@.len(),
        v@.subrange(r.0 as int, r.1 as int) == trim(v@),
{
    let mut a: usize = 0;
    assert(v@.subrange(0, v@.len() as int) =~= v@);
    while a < v.len() && check_white_space(v[a])
        invariant
            a <= v@.len(),
            trim_start(v@) == trim_start(v@.subrange(a as int, v@.len() as int)),
        decreases v@.len() - a,
    {
        assert(v@.subrange(a as int, v@.len() as int).drop_first() =~= v@.subrange(
            a + 1,
            v@.len() as int,
        ));
        a = a + 1;
    }
    let ghost t = v@.subrange(a as int, v@.len() as int);
    assert(trim_start(v@) == t);
    let mut b: usize = v.len();
    while b > a && check_white_space(v[b - 1])
        invariant
            a <= b <= v@.len(),
            t == v@.subrange(a as int, v@.len() as int),
            trim_end(t) == trim_end(v@.subrange(a as int, b as int)),
        decreases b,
    {
        assert(v@.subrange(a as int, b as int).drop_last() =~= v@.subrange(a as int, b - 1));
        b = b - 1;
    }
    (a, b)
}

/// Value of the base-16 digits `d[from..]`, if they are all digits, at least one, and fit
/// in a `u32`.
fn read_hex(d: &Vec<char>, from: usize) -> (r: Option<u32>)
    requires
        from <= d@.len(),
    ensures
        ({
            let s = d@.subrange(from as int, d@.len() as int);
            &&& r is Some <==> is_u32_hex(s)
            &&& r is Some ==> r->0 == hex_value(s)
        }),
{
    let ghost s = d@.subrange(from as int, d@.len() as int);
    let mut i: usize = from;
    let ghost digits = s;
    if i == d.len() {
        return None;
    }
    let start = i;
    let cap: u64 = 0x1_0000_0000;
    let mut acc: u64 = 0;
    while i < d.len()
        invariant
            start <= i <= d@.len(),
            digits == d@.subrange(start as int, d@.len() as int),
            s == d@.subrange(from as int, d@.len() as int),
            digits == s,
            forall|k: int| start <= k < i ==> is_hex_digit(#[trigger] d@[k]),
            acc as int == if hex_value(d@.subrange(start as int, i as int)) < cap {
                hex_value(d@.subrange(start as int, i as int))
            } else {
                cap as int
            },
            cap == 0x1_0000_0000,
        decreases d@.len() - i,
    {
        let c = d[i];
        let v = c as u32;
        let digit: u64 = if 0x30 <= v && v <= 0x39 {
            (v - 0x30) as u64
        } else if 0x61 <= v && v <= 0x66 {
            (v - 0x61 + 10) as u64
        } else if 0x41 <= v && v <= 0x46 {
            (v - 0x41 + 10) as u64
        } else {
            assert(digits[i - start] == c);
            assert(!is_hex_digit(digits[i - start]));
            return None;
        };
        let ghost prev = hex_value(d@.subrange(start as int, i as int));
        assert(d@.subrange(start as int, i + 1).drop_last() =~= d@.subrange(start as int, i as int));
        assert(hex_value(d@.subrange(start as int, i + 1)) == prev * 16 + digit);
        assert(hex_value(d@.subrange(start as int, i as int)) >= 0) by {
            lemma_hex_value_nonneg(d@.subrange(start as int, i as int));
        }
        proof {
            if prev >= cap {
                assert(prev * 16 + digit >= cap) by (nonlinear_arith)
                    requires
                        prev >= cap,
                        digit >= 0,
                        cap > 0,
                ;
            }
        }
        let next = acc * 16 + digit;
        acc = if next < cap {
            next
        } else {
            cap
        };
        i = i + 1;
    }
    assert(d@.subrange(start as int, i as int) =~= digits);
    if acc < cap {
        Some(acc as u32)
    } else {
        None
    }
}

/// `pre`, then `x`, then `post`, as one string.
fn join3(pre: &str, x: &str, post: &str) -> (r: String)
    ensures
        r@ == pre@ + x@ + post@,
{
    let mut m = String::from_str(pre);
    m.append(x);
    m.append(post);
    m
}

/// Reads one character code written as `0x` followed by base-16 digits. White space
/// around it is ignored; after the `0x`, every character must be a base-16 digit.
pub fn parse_single_charcode(char_code: &str) -> (r: Result<u32, ParseError>)
    ensures
        code_result_view(r) == single_code(char_code@),
{
    let v = chars_of(char_code);
    let (a, b) = trimmed_bounds(&v);
    let trimmed = char_code.substring_char(a, b);
    if !(b - a >= 2 && v[a] == '0' && v[a + 1] == 'x') {
        return Err(
            ParseError {
                input: String::from_str(trimmed),
                message: join3("Number ", trimmed, " doesn't start with 0x"),
            },
        );
    }
    let ghost t = trim(v@);
    assert(v@.subrange(a as int, b as int) =~= t);
    assert(v@.subrange(a + 2, b as int) =~= t.subrange(2, t.len() as int));
    let digits = char_code.substring_char(a + 2, b);
    let dv = chars_of(digits);
    assert(dv@.subrange(0, dv@.len() as int) =~= dv@);
    match read_hex(&dv, 0) {
        Some(value) => Ok(value),
        None => Err(
            ParseError {
                input: String::from_str(digits),
                message: join3("Number ", digits, " could not be parsed as a hexadecimal number."),
            },
        ),
    }
}

/// Whether `v` is a Unicode scalar value, that is, the code of some `char`.
pub open spec fn is_scalar_value(v: u32) -> bool {
    v < 0xd800 || (0xe000 <= v && v <= 0x10ffff)
}

/// Whether the code `v` has the general category of control codes (Cc).
pub open spec fn is_control_code(v: u32) -> bool {
    v <= 0x1f || (0x7f <= v && v <= 0x9f)
}

/// Whether the code `v` stands for a character that is rendered: a valid character,
/// not the space, and no control character when those are skipped.
pub open spec fn keeps_code(v: u32, skip_control_characters: bool) -> bool {
    is_scalar_value(v) && v != 0x20 && !(skip_control_characters && is_control_code(v))
}

/// Relies on `char::from_u32`: `Some` exactly for Unicode scalar values, holding the
/// character with that code.
#[verifier::external_body]
fn char_from_u32(v: u32) -> (r: Option<char>)
    ensures
        r is Some <==> is_scalar_value(v),
        r is Some ==> r->0 as u32 == v,
{
    char::from_u32(v)
}

/// The character with code `char_code`, unless it is filtered out: invalid codes and the
/// space always are, control characters when `skip_control_characters` holds.
pub fn parse_char(char_code: u32, skip_control_characters: bool) -> (r: Option<char>)
    ensures
        r is Some <==> keeps_code(char_code, skip_control_characters),
        r is Some ==> r->0 as u32 == char_code,
{
    let ch = char_from_u32(char_code);
    match ch {
        None => None,
        Some(c) => {
            let v = c as u32;
            let is_control = v <= 0x1f || (0x7f <= v && v <= 0x9f);
            if skip_control_characters && is_control {
                None
            } else if v == 0x20 {
                None
            } else {
                Some(c)
            }
        },
    }
}

/// Whether `c` separates the items of a descriptor: `;` is taken as `,`.
pub open spec fn is_separator(c: char) -> bool {
    c == ',' || c == ';'
}

/// The items of a descriptor, as `str::split` gives them after `;` became `,`: one more
/// item than there are separators, empty ones included.
pub open spec fn split_items(s: Seq<char>) -> Seq<Seq<char>>
    decreases s.len(),
{
    if s.len() == 0 {
        seq![Seq::empty()]
    } else {
        let p = split_items(s.drop_last());
        if is_separator(s.last()) {
            p.push(Seq::empty())
        } else {
            p.update(p.len() - 1, p.last().push(s.last()))
        }
    }
}

/// Position of the first `c` in `s`, or -1 if there is none.
pub open spec fn index_of(s: Seq<char>, c: char) -> int
    decreases s.len(),
{
    if s.len() == 0 {
        -1
    } else if s[0] == c {
        0
    } else {
        let k = index_of(s.drop_first(), c);
        if k < 0 {
            -1
        } else {
            k + 1
        }
    }
}

/// The codes `a, a + 1, ..., b - 1`: the end is left out.
pub open spec fn code_span(a: u32, b: u32) -> Seq<u32> {
    if a < b {
        Seq::new((b - a) as nat, |i: int| (a + i) as u32)
    } else {
        Seq::empty()
    }
}

/// The codes that one item denotes before filtering: a single code, or the span
/// `start-end` split at the first `-`.
pub open spec fn item_codes(item: Seq<char>) -> Result<Seq<u32>, (Seq<char>, Seq<char>)> {
    let k = index_of(item, '-');
    if k < 0 {
        match single_code(item) {
            Ok(v) => Ok(seq![v]),
            Err(e) => Err(e),
        }
    } else {
        match single_code(item.take(k)) {
            Err(e) => Err(e),
            Ok(a) => match single_code(item.skip(k + 1)) {
                Err(e) => Err(e),
                Ok(b) => Ok(code_span(a, b)),
            },
        }
    }
}

/// The codes of `codes` that are rendered, in order.
pub open spec fn kept_codes(codes: Seq<u32>, skip_control_characters: bool) -> Seq<u32>
    decreases codes.len(),
{
    if codes.len() == 0 {
        Seq::empty()
    } else {
        let p = kept_codes(codes.drop_last(), skip_control_characters);
        if keeps_code(codes.last(), skip_control_characters) {
            p.push(codes.last())
        } else {
            p
        }
    }
}

/// The kept codes of a list of items, or the error of the first item that fails.
pub open spec fn items_codes(items: Seq<Seq<char>>, skip_control_characters: bool) -> Result<
    Seq<u32>,
    (Seq<char>, Seq<char>),
>
    decreases items.len(),
{
    if items.len() == 0 {
        Ok(Seq::empty())
    } else {
        match items_codes(items.drop_last(), skip_control_characters) {
            Err(e) => Err(e),
            Ok(p) => match item_codes(items.last()) {
                Err(e) => Err(e),
                Ok(c) => Ok(p + kept_codes(c, skip_control_characters)),
            },
        }
    }
}

/// The codes that a descriptor resolves to, the null character first if asked for.
pub open spec fn resolve_codes(
    descriptor: Seq<char>,
    skip_control_characters: bool,
    add_null_character: bool,
) -> Result<Seq<u32>, (Seq<char>, Seq<char>)> {
    match items_codes(split_items(descriptor), skip_control_characters) {
        Err(e) => Err(e),
        Ok(c) => Ok(
            if add_null_character {
                seq![0u32] + c
            } else {
                c
            },
        ),
    }
}

/// The codes of a sequence of characters.
pub open spec fn codes_of(s: Seq<char>) -> Seq<u32> {
    s.map_values(|c: char| c as u32)
}

pub open spec fn chars_result_view(r: Result<Vec<char>, ParseError>) -> Result<
    Seq<u32>,
    (Seq<char>, Seq<char>),
> {
    match r {
        Ok(v) => Ok(codes_of(v@)),
        Err(e) => Err(e@),
    }
}

proof fn lemma_index_of(s: Seq<char>, c: char, k: int)
    requires
        0 <= k <= s.len(),
        forall|j: int| 0 <= j < k ==> s[j] != c,
        k < s.len() ==> s[k] == c,
    ensures
        index_of(s, c) == if k < s.len() {
            k
        } else {
            -1
        },
    decreases k,
{
    if k > 0 {
        lemma_index_of(s.drop_first(), c, k - 1);
    }
}

/// Appends to `out` the kept characters of `codes[a..b)`.
fn push_kept_span(out: &mut Vec<char>, start: u32, end: u32, skip_control_characters: bool)
    ensures
        codes_of(final(out)@) == codes_of(old(out)@) + kept_codes(
            code_span(start, end),
            skip_control_characters,
        ),
{
    let ghost base = codes_of(out@);
    let mut code: u32 = start;
    if start < end {
        while code < end
            invariant
                start <= code <= end,
                codes_of(out@) == base + kept_codes(code_span(start, code), skip_control_characters),
            decreases end - code,
        {
            let ghost before = out@;
            assert(code_span(start, (code + 1) as u32).drop_last() =~= code_span(start, code));
            match parse_char(code, skip_control_characters) {
                Some(ch) => {
                    out.push(ch);
                    assert(codes_of(out@) =~= codes_of(before).push(code));
                },
                None => {},
            }
            code = code + 1;
        }
    }
    assert(kept_codes(code_span(start, start), skip_control_characters) =~= Seq::empty());
    assert(codes_of(out@) =~= base + kept_codes(code_span(start, end), skip_control_characters));
}

/// Appends to `out` the kept characters that one item denotes.
fn push_item(item: &str, skip_control_characters: bool, out: &mut Vec<char>) -> (r: Result<
    (),
    ParseError,
>)
    ensures
        match item_codes(item@) {
            Err(e) => r is Err && r->Err_0@ == e,
            Ok(c) => r is Ok && codes_of(final(out)@) == codes_of(old(out)@) + kept_codes(
                c,
                skip_control_characters,
            ),
        },
{
    let v = chars_of(item);
    let mut k: usize = 0;
    while k < v.len() && v[k] != '-'
        invariant
            k <= v@.len(),
            forall|j: int| 0 <= j < k ==> v@[j] != '-',
        decreases v@.len() - k,
    {
        k = k + 1;
    }
    proof {
        lemma_index_of(v@, '-', k as int);
    }
    if k == v.len() {
        let code = match parse_single_charcode(item) {
            Ok(code) => code,
            Err(e) => {
                return Err(e);
            },
        };
        let ghost before = out@;
        match parse_char(code, skip_control_characters) {
            Some(ch) => {
                out.push(ch);
                assert(codes_of(out@) =~= codes_of(before).push(code));
            },
            None => {},
        }
        assert(seq![code].drop_last() =~= Seq::<u32>::empty());
        assert(kept_codes(Seq::<u32>::empty(), skip_control_characters) =~= Seq::<u32>::empty());
        assert(item_codes(item@) == Ok::<Seq<u32>, (Seq<char>, Seq<char>)>(seq![code]));
        Ok(())
    } else {
        let head = item.substring_char(0, k);
        let tail = item.substring_char(k + 1, v.len());
        assert(head@ =~= item@.take(k as int));
        assert(tail@ =~= item@.skip(k + 1));
        let start = match parse_single_charcode(head) {
            Ok(code) => code,
            Err(e) => {
                return Err(e);
            },
        };
        let end = match parse_single_charcode(tail) {
            Ok(code) => code,
            Err(e) => {
                return Err(e);
            },
        };
        push_kept_span(out, start, end, skip_control_characters);
        assert(item_codes(item@) == Ok::<Seq<u32>, (Seq<char>, Seq<char>)>(code_span(start, end)));
        Ok(())
    }
}

/// Resolves a character-range descriptor such as `0x0, 0x40-0x50;0x60` into the
/// characters it names, in order and with repeats kept. Items are separated by `,` or
/// `;`; an item `start-end` names the codes from `start` up to `end`, `end` left out.
/// Invalid codes and the space are dropped, and control characters too when
/// `skip_control_characters` holds. With `add_null_character` set to `Some(true)` the
/// null character comes first. The first item that does not read fails the whole call.
pub fn char_range(
    descriptor: &String,
    skip_control_characters: bool,
    add_null_character: Option<bool>,
) -> (r: Result<Vec<char>, ParseError>)
    ensures
        chars_result_view(r) == resolve_codes(
            descriptor@,
            skip_control_characters,
            add_null_character == Some(true),
        ),
{
    let text = descriptor.as_str();
    let v = chars_of(text);
    let mut result: Vec<char> = Vec::new();
    let add_null = match add_null_character {
        Some(b) => b,
        None => false,
    };
    if add_null {
        match parse_char(0, false) {
            Some(ch) => {
                result.push(ch);
            },
            None => {},
        }
    }
    let ghost prefix = codes_of(result@);
    assert(prefix =~= if add_null {
        seq![0u32]
    } else {
        Seq::<u32>::empty()
    });
    let ghost mut done: Seq<Seq<char>> = Seq::empty();
    let mut st: usize = 0;
    let mut i: usize = 0;
    assert(v@.take(0) =~= Seq::<char>::empty());
    assert(v@.subrange(0, 0) =~= Seq::<char>::empty());
    loop
        invariant_except_break
            split_items(v@.take(i as int)) == done.push(v@.subrange(st as int, i as int)),
        invariant
            st <= i <= v@.len(),
            text@ == v@,
            descriptor@ == v@,
            items_codes(done, skip_control_characters) is Ok,
            codes_of(result@) == prefix + items_codes(done, skip_control_characters)->Ok_0,
            prefix == if add_null {
                seq![0u32]
            } else {
                Seq::<u32>::empty()
            },
        ensures
            i == v@.len(),
            split_items(v@) == done,
            items_codes(done, skip_control_characters) is Ok,
            codes_of(result@) == prefix + items_codes(done, skip_control_characters)->Ok_0,
        decreases v@.len() - i,
    {
        if i == v.len() || v[i] == ',' || v[i] == ';' {
            let item = text.substring_char(st, i);
            let ghost before = codes_of(result@);
            let ghost item_seq = v@.subrange(st as int, i as int);
            assert(item@ == item_seq);
            match push_item(item, skip_control_characters, &mut result) {
                Ok(()) => {},
                Err(e) => {
                    proof {
                        let failed = done.push(item_seq);
                        assert(failed.drop_last() =~= done);
                        lemma_split_len(v@.take(i as int));
                        if i < v@.len() {
                            assert(v@.take(i + 1).drop_last() =~= v@.take(i as int));
                            lemma_split_keeps(v@, i + 1, v@.len() as int);
                            assert(v@.take(v@.len() as int) =~= v@);
                            assert(split_items(v@.take(i + 1)) =~= failed.push(Seq::empty()));
                        } else {
                            assert(v@.take(i as int) =~= v@);
                        }
                        assert(split_items(v@).take(failed.len() as int) =~= failed);
                        lemma_items_err(split_items(v@), failed.len() as int, skip_control_characters);
                    }
                    return Err(e);
                },
            }
            proof {
                let next = done.push(item_seq);
                assert(next.drop_last() =~= done);
                assert(codes_of(result@) =~= prefix + items_codes(next, skip_control_characters)->Ok_0);
                if i < v@.len() {
                    assert(v@.take(i + 1).drop_last() =~= v@.take(i as int));
                }
                done = next;
            }
            if i == v.len() {
                assert(v@.take(i as int) =~= v@);
                break;
            }
            st = i + 1;
            assert(v@.subrange(st as int, st as int) =~= Seq::<char>::empty());
        } else {
            assert(v@.take(i + 1).drop_last() =~= v@.take(i as int));
            assert(v@.subrange(st as int, i + 1) =~= v@.subrange(st as int, i as int).push(v@[i as int]));
        }
        i = i + 1;
    }
    Ok(result)
}

proof fn lemma_split_len(s: Seq<char>)
    ensures
        split_items(s).len() >= 1,
    decreases s.len(),
{
    if s.len() > 0 {
        lemma_split_len(s.drop_last());
    }
}

/// Items completed in a prefix of `v` stay the same in longer prefixes.
proof fn lemma_split_keeps(v: Seq<char>, i: int, j: int)
    requires
        0 <= i <= j <= v.len(),
    ensures
        split_items(v.take(j)).len() >= split_items(v.take(i)).len(),
        split_items(v.take(j)).take(split_items(v.take(i)).len() - 1) == split_items(
            v.take(i),
        ).take(split_items(v.take(i)).len() - 1),
    decreases j - i,
{
    lemma_split_len(v.take(i));
    if j > i {
        lemma_split_keeps(v, i, j - 1);
        assert(v.take(j).drop_last() =~= v.take(j - 1));
        lemma_split_len(v.take(j - 1));
        let n = split_items(v.take(i)).len() - 1;
        assert(split_items(v.take(j)).take(n) =~= split_items(v.take(j - 1)).take(n));
    } else {
        assert(v.take(j) =~= v.take(i));
    }
}

/// Once a prefix of the items fails, the whole list fails the same way.
proof fn lemma_items_err(s: Seq<Seq<char>>, n: int, skip_control_characters: bool)
    requires
        0 <= n <= s.len(),
        items_codes(s.take(n), skip_control_characters) is Err,
    ensures
        items_codes(s, skip_control_characters) == items_codes(s.take(n), skip_control_characters),
    decreases s.len(),
{
    if s.len() == n {
        assert(s.take(n) =~= s);
    } else {
        assert(s.drop_last().take(n) =~= s.take(n));
        lemma_items_err(s.drop_last(), n, skip_control_characters);
    }
}

/// The outcome of two descriptors read one after the other: the first error, or the
/// codes of both in order.
pub open spec fn then_codes(
    first: Result<Seq<u32>, (Seq<char>, Seq<char>)>,
    second: Result<Seq<u32>, (Seq<char>, Seq<char>)>,
) -> Result<Seq<u32>, (Seq<char>, Seq<char>)> {
    match first {
        Err(e) => Err(e),
        Ok(a) => match second {
            Err(e) => Err(e),
            Ok(b) => Ok(a + b),
        },
    }
}

proof fn lemma_split_join(d1: Seq<char>, d2: Seq<char>)
    ensures
        split_items(d1 + seq![','] + d2) == split_items(d1) + split_items(d2),
    decreases d2.len(),
{
    let x = d1 + seq![','] + d2;
    lemma_split_len(d1);
    if d2.len() == 0 {
        assert(x.drop_last() =~= d1);
        assert(split_items(d1) + split_items(d2) =~= split_items(d1).push(Seq::empty()));
    } else {
        assert(x.drop_last() =~= d1 + seq![','] + d2.drop_last());
        lemma_split_join(d1, d2.drop_last());
        lemma_split_len(d2.drop_last());
        let a = split_items(d1);
        let b = split_items(d2.drop_last());
        if is_separator(d2.last()) {
            assert(split_items(x) =~= a + b.push(Seq::empty()));
        } else {
            assert(split_items(x) =~= a + b.update(b.len() - 1, b.last().push(d2.last())));
        }
    }
}

proof fn lemma_items_join(a: Seq<Seq<char>>, b: Seq<Seq<char>>, skip_control_characters: bool)
    ensures
        items_codes(a + b, skip_control_characters) == then_codes(
            items_codes(a, skip_control_characters),
            items_codes(b, skip_control_characters),
        ),
    decreases b.len(),
{
    if b.len() == 0 {
        assert(a + b =~= a);
        match items_codes(a, skip_control_characters) {
            Ok(c) => {
                assert(c + Seq::<u32>::empty() =~= c);
            },
            Err(_) => {},
        }
    } else {
        assert((a + b).drop_last() =~= a + b.drop_last());
        assert((a + b).last() == b.last());
        lemma_items_join(a, b.drop_last(), skip_control_characters);
        match items_codes(a, skip_control_characters) {
            Ok(c1) => match items_codes(b.drop_last(), skip_control_characters) {
                Ok(c2) => match item_codes(b.last()) {
                    Ok(c3) => {
                        assert(c1 + c2 + kept_codes(c3, skip_control_characters) =~= c1 + (c2
                            + kept_codes(c3, skip_control_characters)));
                    },
                    Err(_) => {},
                },
                Err(_) => {},
            },
            Err(_) => {},
        }
    }
}

/// Reading `first` and `second` joined by a `,` gives the codes of `first` followed by
/// those of `second`, repeats kept; if either fails, the error of the first failure.
pub proof fn lemma_join_descriptors(
    first: Seq<char>,
    second: Seq<char>,
    skip_control_characters: bool,
)
    ensures
        resolve_codes(first + seq![','] + second, skip_control_characters, false) == then_codes(
            resolve_codes(first, skip_control_characters, false),
            resolve_codes(second, skip_control_characters, false),
        ),
{
    lemma_split_join(first, second);
    lemma_items_join(split_items(first), split_items(second), skip_control_characters);
}

/// Whether `d` is a non-empty string of base-16 digits whose value fits in a `u32`.
pub open spec fn is_hex_number(d: Seq<char>) -> bool {
    &&& d.len() > 0
    &&& forall|i: int| 0 <= i < d.len() ==> is_hex_digit(#[trigger] d[i])
    &&& hex_value(d) <= u32::MAX
}

proof fn lemma_split_single(s: Seq<char>)
    requires
        forall|i: int| 0 <= i < s.len() ==> !is_separator(#[trigger] s[i]),
    ensures
        split_items(s) == seq![s],
    decreases s.len(),
{
    if s.len() > 0 {
        lemma_split_single(s.drop_last());
        assert(s.drop_last().push(s.last()) =~= s);
        assert(seq![s.drop_last()].update(0, s.drop_last().push(s.last())) =~= seq![s]);
    } else {
        assert(s =~= Seq::<char>::empty());
    }
}

/// `0x` followed by the digits `d` reads as the value of `d`.
proof fn lemma_read_hex_code(d: Seq<char>)
    requires
        is_hex_number(d),
    ensures
        single_code(seq!['0', 'x'] + d) == Ok::<u32, (Seq<char>, Seq<char>)>(hex_value(d) as u32),
{
    let t = seq!['0', 'x'] + d;
    assert(!is_white_space(t[0]));
    assert(is_hex_digit(d[d.len() - 1]));
    assert(!is_white_space(t.last()));
    assert(trim_start(t) == t);
    assert(trim(t) == t);
    assert(t.subrange(2, t.len() as int) =~= d);
}

/// A span `0xA-0xB` of two valid numbers gives the codes from A up to B, B left out,
/// less those that are filtered; exactly that span when none of them is filtered.
pub proof fn lemma_span_descriptor(a: Seq<char>, b: Seq<char>, skip_control_characters: bool)
    requires
        is_hex_number(a),
        is_hex_number(b),
    ensures
        resolve_codes(
            seq!['0', 'x'] + a + seq!['-', '0', 'x'] + b,
            skip_control_characters,
            false,
        ) == Ok::<Seq<u32>, (Seq<char>, Seq<char>)>(
            kept_codes(code_span(hex_value(a) as u32, hex_value(b) as u32), skip_control_characters),
        ),
        (forall|v: u32|
            hex_value(a) <= v < hex_value(b) ==> keeps_code(v, skip_control_characters))
            ==> resolve_codes(
            seq!['0', 'x'] + a + seq!['-', '0', 'x'] + b,
            skip_control_characters,
            false,
        ) == Ok::<Seq<u32>, (Seq<char>, Seq<char>)>(
            code_span(hex_value(a) as u32, hex_value(b) as u32),
        ),
{
    let d = seq!['0', 'x'] + a + seq!['-', '0', 'x'] + b;
    let k = a.len() + 2int;
    assert forall|i: int| 0 <= i < d.len() implies !is_separator(#[trigger] d[i]) by {
        if 2 <= i < k {
            assert(is_hex_digit(a[i - 2]));
        } else if k + 3 <= i {
            assert(is_hex_digit(b[i - k - 3]));
        }
    }
    lemma_split_single(d);
    assert forall|j: int| 0 <= j < k implies d[j] != '-' by {
        if 2 <= j {
            assert(is_hex_digit(a[j - 2]));
        }
    }
    lemma_index_of(d, '-', k);
    assert(d.take(k) =~= seq!['0', 'x'] + a);
    assert(d.skip(k + 1) =~= seq!['0', 'x'] + b);
    lemma_read_hex_code(a);
    lemma_read_hex_code(b);
    let span = code_span(hex_value(a) as u32, hex_value(b) as u32);
    assert(seq![d].drop_last() =~= Seq::<Seq<char>>::empty());
    assert(Seq::<u32>::empty() + kept_codes(span, skip_control_characters) =~= kept_codes(
        span,
        skip_control_characters,
    ));
    assert(item_codes(d) == Ok::<Seq<u32>, (Seq<char>, Seq<char>)>(span));
    assert(items_codes(Seq::<Seq<char>>::empty(), skip_control_characters) == Ok::<
        Seq<u32>,
        (Seq<char>, Seq<char>),
    >(Seq::empty()));
    assert(seq![d].last() == d);
    lemma_hex_value_nonneg(a);
    lemma_hex_value_nonneg(b);
    assert(items_codes(seq![d], skip_control_characters) == Ok::<
        Seq<u32>,
        (Seq<char>, Seq<char>),
    >(kept_codes(span, skip_control_characters)));
    if forall|v: u32| hex_value(a) <= v < hex_value(b) ==> keeps_code(v, skip_control_characters) {
        assert forall|i: int| 0 <= i < span.len() implies keeps_code(
            #[trigger] span[i],
            skip_control_characters,
        ) by {
            let v = span[i];
            assert(hex_value(a) <= v < hex_value(b));
        }
        lemma_kept_all(span, skip_control_characters);
    }
}

/// A single valid code `0xN`, with any white space around it, gives N alone, or nothing
/// when N is filtered.
pub proof fn lemma_single_descriptor(
    before: Seq<char>,
    a: Seq<char>,
    after: Seq<char>,
    skip_control_characters: bool,
)
    requires
        is_hex_number(a),
        forall|i: int| 0 <= i < before.len() ==> is_white_space(#[trigger] before[i]),
        forall|i: int| 0 <= i < after.len() ==> is_white_space(#[trigger] after[i]),
    ensures
        resolve_codes(before + seq!['0', 'x'] + a + after, skip_control_characters, false) == Ok::<
            Seq<u32>,
            (Seq<char>, Seq<char>),
        >(
            if keeps_code(hex_value(a) as u32, skip_control_characters) {
                seq![hex_value(a) as u32]
            } else {
                Seq::empty()
            },
        ),
{
    let t = seq!['0', 'x'] + a;
    let d = before + t + after;
    assert forall|i: int| 0 <= i < d.len() implies !is_separator(#[trigger] d[i]) && d[i] != '-' by {
        if i < before.len() {
            assert(is_white_space(before[i]));
        } else if i < before.len() + t.len() {
            if 2 <= i - before.len() {
                assert(is_hex_digit(a[i - before.len() - 2]));
            }
        } else {
            assert(is_white_space(after[i - before.len() - t.len()]));
        }
    }
    lemma_split_single(d);
    lemma_index_of(d, '-', d.len() as int);
    lemma_read_hex_code(a);
    lemma_trim_padded(before, t, after);
    assert(trim(d) == trim(t));
    assert(d =~= before + seq!['0', 'x'] + a + after);
    assert(single_code(d) == single_code(t));
    let v = hex_value(a) as u32;
    assert(seq![d].drop_last() =~= Seq::<Seq<char>>::empty());
    assert(seq![v].drop_last() =~= Seq::<u32>::empty());
    assert(kept_codes(Seq::<u32>::empty(), skip_control_characters) =~= Seq::<u32>::empty());
    assert(Seq::<u32>::empty() + kept_codes(seq![v], skip_control_characters) =~= kept_codes(
        seq![v],
        skip_control_characters,
    ));
    assert(Seq::<u32>::empty().push(v) =~= seq![v]);
    assert(item_codes(d) == Ok::<Seq<u32>, (Seq<char>, Seq<char>)>(seq![v]));
    assert(items_codes(Seq::<Seq<char>>::empty(), skip_control_characters) == Ok::<
        Seq<u32>,
        (Seq<char>, Seq<char>),
    >(Seq::empty()));
    assert(seq![d].last() == d);
    assert(items_codes(seq![d], skip_control_characters) == Ok::<
        Seq<u32>,
        (Seq<char>, Seq<char>),
    >(kept_codes(seq![v], skip_control_characters)));
}

proof fn lemma_trim_start_ws(pre: Seq<char>, x: Seq<char>)
    requires
        forall|i: int| 0 <= i < pre.len() ==> is_white_space(#[trigger] pre[i]),
    ensures
        trim_start(pre + x) == trim_start(x),
    decreases pre.len(),
{
    if pre.len() == 0 {
        assert(pre + x =~= x);
    } else {
        assert(is_white_space(pre[0]));
        assert((pre + x).drop_first() =~= pre.drop_first() + x);
        lemma_trim_start_ws(pre.drop_first(), x);
    }
}

proof fn lemma_trim_end_ws(x: Seq<char>, post: Seq<char>)
    requires
        forall|i: int| 0 <= i < post.len() ==> is_white_space(#[trigger] post[i]),
    ensures
        trim_end(x + post) == trim_end(x),
    decreases post.len(),
{
    if post.len() == 0 {
        assert(x + post =~= x);
    } else {
        assert(is_white_space(post[post.len() - 1]));
        assert((x + post).drop_last() =~= x + post.drop_last());
        lemma_trim_end_ws(x, post.drop_last());
    }
}

/// White space around `t` is all that trimming removes.
proof fn lemma_trim_padded(pre: Seq<char>, t: Seq<char>, post: Seq<char>)
    requires
        forall|i: int| 0 <= i < pre.len() ==> is_white_space(#[trigger] pre[i]),
        forall|i: int| 0 <= i < post.len() ==> is_white_space(#[trigger] post[i]),
    ensures
        trim(pre + t + post) == trim(t),
{
    assert(pre + t + post =~= pre + (t + post));
    lemma_trim_start_ws(pre, t + post);
    if t.len() > 0 && !is_white_space(t[0]) {
        assert(trim_start(t + post) == t + post);
        assert(trim_start(t) == t);
        lemma_trim_end_ws(t, post);
    } else {
        lemma_trim_start_padded(t, post);
    }
}

proof fn lemma_trim_start_padded(t: Seq<char>, post: Seq<char>)
    requires
        forall|i: int| 0 <= i < post.len() ==> is_white_space(#[trigger] post[i]),
        !(t.len() > 0 && !is_white_space(t[0])),
    ensures
        trim_end(trim_start(t + post)) == trim_end(trim_start(t)),
    decreases t.len(),
{
    if t.len() == 0 {
        assert(t + post =~= post);
        lemma_trim_start_ws(post, Seq::empty());
        assert(post + Seq::<char>::empty() =~= post);
        assert(trim_start(Seq::<char>::empty()) =~= Seq::<char>::empty());
        assert(trim_start(t) =~= Seq::<char>::empty());
    } else {
        assert((t + post).drop_first() =~= t.drop_first() + post);
        let u = t.drop_first();
        if u.len() > 0 && !is_white_space(u[0]) {
            assert(trim_start(u + post) == u + post);
            assert(trim_start(u) == u);
            lemma_trim_end_ws(u, post);
        } else {
            lemma_trim_start_padded(u, post);
        }
    }
}

proof fn lemma_kept_all(codes: Seq<u32>, skip_control_characters: bool)
    requires
        forall|i: int| 0 <= i < codes.len() ==> keeps_code(#[trigger] codes[i], skip_control_characters),
    ensures
        kept_codes(codes, skip_control_characters) == codes,
    decreases codes.len(),
{
    if codes.len() > 0 {
        lemma_kept_all(codes.drop_last(), skip_control_characters);
        assert(keeps_code(codes[codes.len() - 1], skip_control_characters));
        assert(codes.drop_last().push(codes.last()) =~= codes);
    } else {
        assert(codes =~= Seq::<u32>::empty());
    }
}

proof fn lemma_hex_value_nonneg(d: Seq<char>)
    requires
        forall|i: int| 0 <= i < d.len() ==> is_hex_digit(#[trigger] d[i]),
    ensures
        hex_value(d) >= 0,
    decreases d.len(),
{
    if d.len() > 0 {
        assert(is_hex_digit(d[d.len() - 1]));
        lemma_hex_value_nonneg(d.drop_last());
    }
}

} // verus!
