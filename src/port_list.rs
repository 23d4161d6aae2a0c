//! The comma-separated port list that a user types, such as `22, 80,443`.
//! Each field is trimmed of ASCII white space and read as a decimal port with
//! an optional leading `+`; a field that is not a valid port is skipped.
use vstd::prelude::*;

verus! {

/// ASCII white space: space, tab, line feed, vertical tab, form feed, carriage return.
pub open spec fn is_space(b: u8) -> bool {
    b == 32 || (9 <= b && b <= 13)
}

pub open spec fn is_digit(b: u8) -> bool {
    48 <= b && b <= 57
}

pub open spec fn trim_start(f: Seq<u8>) -> Seq<u8>
    decreases f.len(),
{
    if f.len() > 0 && is_space(f[0]) {
        trim_start(f.subrange(1, f.len() as int))
    } else {
        f
    }
}

pub open spec fn trim_end(f: Seq<u8>) -> Seq<u8>
    decreases f.len(),
{
    if f.len() > 0 && is_space(f.last()) {
        trim_end(f.drop_last())
    } else {
        f
    }
}

/// The value of a string of decimal digits.
pub open spec fn digits_value(d: Seq<u8>) -> nat
    decreases d.len(),
{
    if d.len() == 0 {
        0
    } else {
        digits_value(d.drop_last()) * 10 + (d.last() - 48) as nat
    }
}

/// The digits of a field once trimmed, without its leading `+` if it has one.
pub open spec fn strip_plus(g: Seq<u8>) -> Seq<u8> {
    if g.len() > 0 && g[0] == 43 {
        g.subrange(1, g.len() as int)
    } else {
        g
    }
}

/// The port that a string of digits names: one or more digits, at most 65535.
pub open spec fn port_of_digits(d: Seq<u8>) -> Option<u16> {
    if d.len() > 0 && (forall|i: int| 0 <= i < d.len() ==> is_digit(#[trigger] d[i])) && digits_value(d) <= 65535 {
        Some(digits_value(d) as u16)
    } else {
        None
    }
}

/// The port that one field names, if it names one.
pub open spec fn field_port(f: Seq<u8>) -> Option<u16> {
    port_of_digits(strip_plus(trim_end(trim_start(f))))
}

/// The fields of a text, split at each comma; a text has at least one field.
pub open spec fn fields(t: Seq<u8>) -> Seq<Seq<u8>>
    decreases t.len(),
{
    if t.len() == 0 {
        seq![Seq::empty()]
    } else {
        let f = fields(t.drop_last());
        if t.last() == 44 {
            f.push(Seq::empty())
        } else {
            f.update(f.len() - 1, f.last().push(t.last()))
        }
    }
}

/// The ports that the fields name, in order, skipping the fields that name none.
pub open spec fn ports_of_fields(fs: Seq<Seq<u8>>) -> Seq<u16>
    decreases fs.len(),
{
    if fs.len() == 0 {
        Seq::empty()
    } else {
        let r = ports_of_fields(fs.drop_last());
        match field_port(fs.last()) {
            Some(p) => r.push(p),
            None => r,
        }
    }
}

fn is_space_byte(b: u8) -> (r: bool)
    ensures
        r == is_space(b),
{
    b == 32 || (9 <= b && b <= 13)
}

/// The port named by the field `t[lo..hi]`, if any.
fn parse_field(t: &Vec<u8>, lo: usize, hi: usize) -> (r: Option<u16>)
    requires
        lo <= hi <= t@.len(),
    ensures
        r == field_port(t@.subrange(lo as int, hi as int)),
{
    let mut a: usize = lo;
    while a < hi && is_space_byte(t[a])
        invariant
            lo <= a <= hi <= t@.len(),
            trim_start(t@.subrange(lo as int, hi as int)) == trim_start(t@.subrange(a as int, hi as int)),
        decreases hi - a,
    {
        assert(t@.subrange(a as int, hi as int).subrange(1, (hi - a) as int) =~= t@.subrange(a + 1, hi as int));
        a = a + 1;
    }
    let mut b: usize = hi;
    while b > a && is_space_byte(t[b - 1])
        invariant
            lo <= a <= b <= hi <= t@.len(),
            trim_end(t@.subrange(a as int, hi as int)) == trim_end(t@.subrange(a as int, b as int)),
        decreases b - a,
    {
        assert(t@.subrange(a as int, b as int).drop_last() =~= t@.subrange(a as int, b - 1));
        b = b - 1;
    }
    let ghost g = t@.subrange(a as int, b as int);
    assert(trim_end(trim_start(t@.subrange(lo as int, hi as int))) == g);
    let mut c: usize = a;
    if a < b && t[a] == 43 {
        c = a + 1;
        assert(g.subrange(1, g.len() as int) =~= t@.subrange(c as int, b as int));
    }
    let ghost d = t@.subrange(c as int, b as int);
    assert(d == strip_plus(g));
    if c == b {
        return None;
    }
    let mut v: u32 = 0;
    let mut over = false;
    let mut k: usize = c;
    while k < b
        invariant
            lo <= a <= c <= k <= b <= hi <= t@.len(),
            d == t@.subrange(c as int, b as int),
            d == strip_plus(g),
            trim_end(trim_start(t@.subrange(lo as int, hi as int))) == g,
            forall|i: int| c <= i < k ==> is_digit(#[trigger] t@[i]),
            !over ==> v == digits_value(t@.subrange(c as int, k as int)) && v <= 65535,
            over ==> digits_value(t@.subrange(c as int, k as int)) > 65535,
        decreases b - k,
    {
        let x = t[k];
        if x < 48 || x > 57 {
            assert(d[k - c] == x);
            assert(!is_digit(d[k - c]));
            assert(port_of_digits(d) is None);
            return None;
        }
        assert(t@.subrange(c as int, k + 1).drop_last() =~= t@.subrange(c as int, k as int));
        if !over {
            let w: u32 = v * 10 + (x - 48) as u32;
            if w > 65535 {
                over = true;
            } else {
                v = w;
            }
        }
        k = k + 1;
    }
    assert forall|i: int| 0 <= i < d.len() implies is_digit(#[trigger] d[i]) by {
        assert(d[i] == t@[c + i]);
    };
    if over {
        None
    } else {
        Some(v as u16)
    }
}

/// The ports named by a comma-separated list, in the order written; fields
/// that are not valid ports are skipped.
pub fn parse_port_list(text: &Vec<u8>) -> (r: Vec<u16>)
    ensures
        r@ == ports_of_fields(fields(text@)),
{
    let mut out: Vec<u16> = Vec::new();
    let mut lo: usize = 0;
    let mut i: usize = 0;
    while i < text.len()
        invariant
            lo <= i <= text@.len(),
            fields(text@.take(i as int)).len() >= 1,
            fields(text@.take(i as int)).last() == text@.subrange(lo as int, i as int),
            out@ == ports_of_fields(fields(text@.take(i as int)).drop_last()),
        decreases text@.len() - i,
    {
        let ghost f = fields(text@.take(i as int));
        assert(text@.take(i + 1).drop_last() =~= text@.take(i as int));
        if text[i] == 44 {
            let p = parse_field(text, lo, i);
            assert(f =~= f.drop_last().push(f.last()));
            if let Some(q) = p {
                out.push(q);
            }
            assert(fields(text@.take(i + 1)).drop_last() =~= f);
            assert(text@.subrange(i + 1, i + 1) =~= Seq::<u8>::empty());
            lo = i + 1;
        } else {
            assert(fields(text@.take(i + 1)).drop_last() =~= f.drop_last());
            assert(text@.subrange(lo as int, i + 1) =~= text@.subrange(lo as int, i as int).push(text@[i as int]));
        }
        i = i + 1;
    }
    assert(text@.take(i as int) =~= text@);
    let ghost f = fields(text@);
    assert(f =~= f.drop_last().push(f.last()));
    if let Some(q) = parse_field(text, lo, i) {
        out.push(q);
    }
    out
}

} // verus!
