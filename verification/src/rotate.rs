//! Calendar-day file rotation: a path template holds `%Y`/`%m`/`%d`
//! tokens, and the active file of a day is the template resolved against
//! that day. Rotation is a pure decision here; opening and writing files
//! is the embedding application's part.

use vstd::prelude::*;

use crate::time::{date_wf, Date};
use crate::textfmt::{pad2, pad4, push_pad2, push_pad4};

verus! {

/// The template resolved against a day: `%Y` becomes the four-digit year,
/// `%m` and `%d` the two-digit month and day; any other `%`-pair and every
/// other character stand for themselves.
pub open spec fn resolve_template(tmpl: Seq<char>, d: Date) -> Seq<char>
    decreases tmpl.len(),
{
    if tmpl.len() == 0 {
        Seq::<char>::empty()
    } else if tmpl[0] == '%' && tmpl.len() >= 2 {
        if tmpl[1] == 'Y' {
            pad4(d.year as int) + resolve_template(tmpl.skip(2), d)
        } else if tmpl[1] == 'm' {
            pad2(d.month as int) + resolve_template(tmpl.skip(2), d)
        } else if tmpl[1] == 'd' {
            pad2(d.day as int) + resolve_template(tmpl.skip(2), d)
        } else {
            seq![tmpl[0], tmpl[1]] + resolve_template(tmpl.skip(2), d)
        }
    } else {
        seq![tmpl[0]] + resolve_template(tmpl.skip(1), d)
    }
}

/// Resolves a path template against a day.
pub fn resolve_path(tmpl: &str, d: &Date) -> (r: String)
    requires
        date_wf(*d),
    ensures
        r@ == resolve_template(tmpl@, *d),
{
    let chars = crate::strutil::str_to_chars(tmpl);
    let n = chars.len();
    let mut out: Vec<char> = Vec::new();
    let mut i: usize = 0;
    proof {
        assert(chars@.skip(0) =~= chars@);
    }
    while i < n
        invariant
            date_wf(*d),
            n == chars@.len(),
            i <= n,
            resolve_template(chars@, *d) == out@ + resolve_template(chars@.skip(i as int), *d),
        decreases n - i,
    {
        let ghost tail = chars@.skip(i as int);
        proof {
            assert(tail.len() == n - i);
            assert(tail[0] == chars@[i as int]);
            if tail.len() >= 2 {
                assert(tail[1] == chars@[i as int + 1]);
            }
        }
        if chars[i] == '%' && n - i >= 2 {
            let c2 = chars[i + 1];
            if c2 == 'Y' {
                push_pad4(&mut out, d.year);
            } else if c2 == 'm' {
                push_pad2(&mut out, d.month);
            } else if c2 == 'd' {
                push_pad2(&mut out, d.day);
            } else {
                out.push('%');
                out.push(c2);
            }
            i = i + 2;
            proof {
                assert(tail.skip(2) =~= chars@.skip(i as int));
            }
        } else {
            out.push(chars[i]);
            i = i + 1;
            proof {
                assert(tail.skip(1) =~= chars@.skip(i as int));
            }
        }
        proof {
            assert(resolve_template(chars@, *d) == out@ + resolve_template(
                chars@.skip(i as int),
                *d,
            ));
        }
    }
    proof {
        assert(chars@.skip(n as int).len() == 0);
        assert(out@ + resolve_template(chars@.skip(n as int), *d) =~= out@);
    }
    crate::strutil::chars_to_string(&out)
}

} // verus!
