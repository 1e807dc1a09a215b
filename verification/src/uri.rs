//! The URIs of virtual documents.

use vstd::prelude::*;

use crate::text::chars_of;

verus! {

/// The decimal digit for a value below ten.
pub open spec fn digit(n: nat) -> char {
    if n == 0 {
        '0'
    } else if n == 1 {
        '1'
    } else if n == 2 {
        '2'
    } else if n == 3 {
        '3'
    } else if n == 4 {
        '4'
    } else if n == 5 {
        '5'
    } else if n == 6 {
        '6'
    } else if n == 7 {
        '7'
    } else if n == 8 {
        '8'
    } else {
        '9'
    }
}

/// A number in decimal notation.
pub open spec fn decimal(n: nat) -> Seq<char>
    decreases n,
{
    if n < 10 {
        seq![digit(n)]
    } else {
        decimal(n / 10).push(digit(n % 10))
    }
}

fn digit_char(n: usize) -> (r: char)
    requires
        n < 10,
    ensures
        r == digit(n as nat),
{
    if n == 0 {
        '0'
    } else if n == 1 {
        '1'
    } else if n == 2 {
        '2'
    } else if n == 3 {
        '3'
    } else if n == 4 {
        '4'
    } else if n == 5 {
        '5'
    } else if n == 6 {
        '6'
    } else if n == 7 {
        '7'
    } else if n == 8 {
        '8'
    } else {
        '9'
    }
}

/// Appends a number in decimal notation.
pub fn push_decimal(out: &mut String, n: usize)
    ensures
        final(out)@ == old(out)@ + decimal(n as nat),
    decreases n,
{
    let ghost before = out@;
    if n < 10 {
        out.push(digit_char(n));
        assert(out@ =~= before + decimal(n as nat));
    } else {
        push_decimal(out, n / 10);
        out.push(digit_char(n % 10));
        assert(out@ =~= before + decimal(n as nat));
    }
}

/// What a character of a script name becomes in a URI.
pub open spec fn slug_char(c: char) -> char {
    if ('a' <= c <= 'z') || ('A' <= c <= 'Z') || ('0' <= c <= '9') || c == '_' {
        c
    } else {
        '-'
    }
}

pub open spec fn slug(name: Seq<char>) -> Seq<char> {
    name.map_values(|c: char| slug_char(c))
}

/// URI of the virtual document for a script, e.g.
/// `file:///repo/.gitlab-ci.yml.3.deploy-script.sh`.
pub open spec fn virtual_uri_of(uri: Seq<char>, index: nat, name: Seq<char>) -> Seq<char> {
    uri + "."@ + decimal(index) + "."@ + slug(name) + ".sh"@
}

fn slug_of(c: char) -> (r: char)
    ensures
        r == slug_char(c),
{
    if ('a' <= c && c <= 'z') || ('A' <= c && c <= 'Z') || ('0' <= c && c <= '9') || c == '_' {
        c
    } else {
        '-'
    }
}

/// URI of the virtual document for a script.
pub fn virtual_uri(uri: &str, index: usize, name: &str) -> (r: String)
    ensures
        r@ == virtual_uri_of(uri@, index as nat, name@),
{
    let chars = chars_of(name);
    let mut out = uri.to_owned();
    out.append(".");
    push_decimal(&mut out, index);
    out.append(".");
    let ghost head = out@;
    let mut i: usize = 0;
    assert(head + slug(name@).take(0) =~= head);
    while i < chars.len()
        invariant
            i <= chars@.len(),
            chars@ == name@,
            out@ == head + slug(name@).take(i as int),
        decreases chars@.len() - i,
    {
        out.push(slug_of(chars[i]));
        assert(out@ =~= head + slug(name@).take(i + 1));
        i = i + 1;
    }
    assert(slug(name@).take(i as int) =~= slug(name@));
    out.append(".sh");
    out
}

// ---------------------------------------------------------------------------
// Laws
// ---------------------------------------------------------------------------

/// Different numbers are written differently.
pub proof fn law_decimal_is_injective(a: nat, b: nat)
    requires
        decimal(a) == decimal(b),
    ensures
        a == b,
    decreases a,
{
    lemma_decimal_len(a);
    lemma_decimal_len(b);
    assert(decimal(a).last() == digit(a % 10));
    assert(decimal(b).last() == digit(b % 10));
    if a >= 10 {
        assert(b >= 10) by {
            if b < 10 {
                assert(decimal(b).len() == 1);
                lemma_decimal_len(a / 10);
                assert(decimal(a).len() >= 2);
            }
        }
        assert(decimal(a).drop_last() =~= decimal(a / 10));
        assert(decimal(b).drop_last() =~= decimal(b / 10));
        law_decimal_is_injective(a / 10, b / 10);
    } else if b >= 10 {
        lemma_decimal_len(b / 10);
        assert(decimal(b).len() >= 2);
        assert(decimal(a).len() == 1);
    }
}

proof fn lemma_decimal_len(n: nat)
    ensures
        decimal(n).len() >= 1,
        forall|i: int| 0 <= i < decimal(n).len() ==> #[trigger] decimal(n)[i] != '.',
    decreases n,
{
    if n >= 10 {
        lemma_decimal_len(n / 10);
    }
}

/// A sequence is cut at its last dot in one way only.
proof fn lemma_last_dot(a: Seq<char>, b: Seq<char>, c: Seq<char>, d: Seq<char>)
    requires
        a + "."@ + b == c + "."@ + d,
        forall|i: int| 0 <= i < b.len() ==> #[trigger] b[i] != '.',
        forall|i: int| 0 <= i < d.len() ==> #[trigger] d[i] != '.',
    ensures
        a == c,
        b == d,
{
    reveal_strlit(".");
    let left = a + "."@ + b;
    let right = c + "."@ + d;
    assert(left == right);
    assert(left.len() == a.len() + 1 + b.len());
    assert(right.len() == c.len() + 1 + d.len());
    assert(left[a.len() as int] == '.');
    assert(right[c.len() as int] == '.');
    if a.len() > c.len() {
        assert(right[a.len() as int] == d[a.len() - c.len() - 1]);
    }
    if c.len() > a.len() {
        assert(left[c.len() as int] == b[c.len() - a.len() - 1]);
    }
    assert(a =~= left.take(a.len() as int));
    assert(c =~= right.take(a.len() as int));
    assert(b =~= left.skip(a.len() as int + 1));
    assert(d =~= right.skip(a.len() as int + 1));
}

/// A virtual URI leads back to its file, the number of its script and the
/// script's name as far as URIs show it: no two scripts of open files share one.
pub proof fn law_virtual_uris_are_distinct(
    uri: Seq<char>,
    index: nat,
    name: Seq<char>,
    other_uri: Seq<char>,
    other_index: nat,
    other_name: Seq<char>,
)
    requires
        virtual_uri_of(uri, index, name) == virtual_uri_of(other_uri, other_index, other_name),
    ensures
        uri == other_uri,
        index == other_index,
        slug(name) == slug(other_name),
{
    let left = uri + "."@ + decimal(index) + "."@ + slug(name);
    let right = other_uri + "."@ + decimal(other_index) + "."@ + slug(other_name);
    assert(left =~= virtual_uri_of(uri, index, name).take(left.len() as int));
    assert(right =~= virtual_uri_of(other_uri, other_index, other_name).take(right.len() as int));
    assert(virtual_uri_of(uri, index, name).len() == left.len() + ".sh"@.len());
    assert(virtual_uri_of(other_uri, other_index, other_name).len() == right.len() + ".sh"@.len());
    assert(left.len() == right.len());
    lemma_last_dot(
        uri + "."@ + decimal(index),
        slug(name),
        other_uri + "."@ + decimal(other_index),
        slug(other_name),
    );
    lemma_decimal_len(index);
    lemma_decimal_len(other_index);
    lemma_last_dot(uri, decimal(index), other_uri, decimal(other_index));
    law_decimal_is_injective(index, other_index);
}

/// The URI of a virtual document is the URI of its file, the number of the
/// script, and the name of the script as far as a URI can hold it, with dots
/// between them, and it says that it is a shell script.
pub proof fn law_virtual_uris_name_their_script(
    uri: Seq<char>,
    index: nat,
    name: Seq<char>,
    i: int,
)
    requires
        0 <= i < name.len(),
    ensures
        ({
            let made = virtual_uri_of(uri, index, name);
            let number = decimal(index);
            let from = uri.len() as int + number.len() + 2;
            let keeps = 'a' <= name[i] <= 'z' || 'A' <= name[i] <= 'Z' || '0' <= name[i] <= '9'
                || name[i] == '_';
            &&& made.len() == from + name.len() + 3
            &&& made.take(uri.len() as int) == uri
            &&& made[uri.len() as int] == '.'
            &&& made.subrange(uri.len() as int + 1, from - 1) == number
            &&& made[from - 1] == '.'
            &&& made[from + i] == (if keeps {
                name[i]
            } else {
                '-'
            })
            &&& made.skip(from + name.len() as int) == ".sh"@
        }),
{
    reveal_strlit(".");
    reveal_strlit(".sh");
    let made = virtual_uri_of(uri, index, name);
    let number = decimal(index);
    let from = uri.len() as int + number.len() + 2;
    assert(made.take(uri.len() as int) =~= uri);
    assert(made.subrange(uri.len() as int + 1, from - 1) =~= number);
    assert(made.skip(from + name.len() as int) =~= ".sh"@);
    assert(made[from + i] == slug(name)[i]);
}

/// The number that decimal digits stand for.
pub open spec fn number_of(digits: Seq<char>) -> int
    decreases digits.len(),
{
    if digits.len() == 0 {
        0
    } else {
        number_of(digits.drop_last()) * 10 + (digits.last() as int - '0' as int)
    }
}

/// A number is written in decimal digits that stand for it, without zeros in
/// front.
pub proof fn law_numbers_are_written_in_decimal(n: nat)
    ensures
        number_of(decimal(n)) == n,
        decimal(n).len() > 0,
        n > 0 ==> decimal(n)[0] != '0',
        forall|i: int| 0 <= i < decimal(n).len() ==> '0' <= #[trigger] decimal(n)[i] <= '9',
    decreases n,
{
    reveal_with_fuel(number_of, 2);
    if n < 10 {
        assert(decimal(n).drop_last() =~= Seq::empty());
    } else {
        law_numbers_are_written_in_decimal(n / 10);
        assert(decimal(n).drop_last() =~= decimal(n / 10));
    }
}

} // verus!
