//! Rendering of the output bytes as the source text of a constant array.

use vstd::prelude::*;

verus! {

/// Number of bytes on one line of the rendered text.
pub const BYTES_PER_LINE: usize = 25;

/// The lower-case hexadecimal digit for `n`, for `n` from 0 to 15.
pub open spec fn hex_char(n: int) -> char {
    seq!['0', '1', '2', '3', '4', '5', '6', '7', '8', '9', 'a', 'b', 'c', 'd', 'e', 'f'][n]
}

/// The text of one byte: `0x`, two hexadecimal digits, a comma and a space.
pub open spec fn byte_text(b: u8) -> Seq<char> {
    "0x"@ + seq![hex_char(b as int / 16), hex_char(b as int % 16)] + ", "@
}

/// The text of the first `n` bytes: lines of 25 bytes, each indented by two
/// spaces and closed by a line feed; the last line may be shorter.
pub open spec fn body_text(bytes: Seq<u8>, n: int) -> Seq<char>
    decreases n,
{
    if n <= 0 {
        Seq::empty()
    } else {
        body_text(bytes, n - 1) + (if (n - 1) % 25 == 0 {
            "  "@
        } else {
            Seq::empty()
        }) + byte_text(bytes[n - 1]) + (if n % 25 == 0 || n == bytes.len() {
            seq!['\n']
        } else {
            Seq::empty()
        })
    }
}

/// The rendered text of `bytes`: the opening line of the array, the bytes,
/// and the closing line.
pub open spec fn rendered(bytes: Seq<u8>) -> Seq<char> {
    "const uint8_t video[] PROGMEM = {\n"@ + body_text(bytes, bytes.len() as int) + "};\n"@
}

/// Appends `c` to `text` by `String::push`, which adds the given character
/// at the end and changes nothing else.
#[verifier::external_body]
fn push_char(text: &mut String, c: char)
    ensures
        final(text)@ == old(text)@.push(c),
{
    text.push(c);
}

/// Appends `more` to `text` by `String::push_str`, which adds the given
/// string slice at the end and changes nothing else.
#[verifier::external_body]
fn push_text(text: &mut String, more: &str)
    ensures
        final(text)@ == old(text)@ + more@,
{
    text.push_str(more);
}

/// The lower-case hexadecimal digit for `n`.
pub fn hex_digit(n: u8) -> (c: char)
    requires
        n < 16,
    ensures
        c == hex_char(n as int),
{
    if n == 0 {
        '0'
    } else if n == 1 {
        '1'
    } else if n == 2 {
        '2'
    } else if n == 3 {
        '3'
    } else if n == 4 {
        '4'
    } else if n == 5 {
        '5'
    } else if n == 6 {
        '6'
    } else if n == 7 {
        '7'
    } else if n == 8 {
        '8'
    } else if n == 9 {
        '9'
    } else if n == 10 {
        'a'
    } else if n == 11 {
        'b'
    } else if n == 12 {
        'c'
    } else if n == 13 {
        'd'
    } else if n == 14 {
        'e'
    } else {
        'f'
    }
}

/// Renders `bytes` as the source text of a constant array.
pub fn render(bytes: &Vec<u8>) -> (code: String)
    ensures
        code@ == rendered(bytes@),
{
    let mut code = String::new();
    push_text(&mut code, "const uint8_t video[] PROGMEM = {\n");
    let ghost head = code@;
    let mut i: usize = 0;
    while i < bytes.len()
        invariant
            i <= bytes.len(),
            head == "const uint8_t video[] PROGMEM = {\n"@,
            code@ == head + body_text(bytes@, i as int),
        decreases bytes.len() - i,
    {
        let ghost before = code@;
        if i % BYTES_PER_LINE == 0 {
            push_text(&mut code, "  ");
        }
        let byte = bytes[i];
        push_text(&mut code, "0x");
        push_char(&mut code, hex_digit(byte / 16));
        push_char(&mut code, hex_digit(byte % 16));
        push_text(&mut code, ", ");
        i += 1;
        if i % BYTES_PER_LINE == 0 || i == bytes.len() {
            push_char(&mut code, '\n');
        }
        assert(code@ =~= head + body_text(bytes@, i as int));
    }
    push_text(&mut code, "};\n");
    code
}

} // verus!
