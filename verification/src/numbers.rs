use vstd::prelude::*;
use vstd::string::*;

verus! {

/// Whether `c` is an ASCII decimal digit.
pub open spec fn is_digit(c: char) -> bool {
    48 <= c as u32 && c as u32 <= 57
}

/// The value of an ASCII decimal digit.
pub open spec fn digit_val(c: char) -> int {
    c as u32 - 48
}

/// Whether every character of `s` is an ASCII decimal digit.
pub open spec fn all_digits(s: Seq<char>) -> bool {
    forall|k: int| 0 <= k < s.len() ==> is_digit(s[k])
}

/// The base-10 value of a digit sequence.
pub open spec fn digits_val(s: Seq<char>) -> int
    decreases s.len(),
{
    if s.len() == 0 {
        0
    } else {
        digits_val(s.drop_last()) * 10 + digit_val(s.last())
    }
}

proof fn lemma_digits_val_nonneg(s: Seq<char>)
    requires
        all_digits(s),
    ensures
        digits_val(s) >= 0,
    decreases s.len(),
{
    if s.len() > 0 {
        assert(all_digits(s.drop_last()));
        lemma_digits_val_nonneg(s.drop_last());
    }
}

/// What `str::parse::<i32>` returns: an optional sign, then at least one
/// digit and nothing else, with the value within the range of `i32`.
pub open spec fn parse_i32_spec(s: Seq<char>) -> Option<i32> {
    let neg = s.len() > 0 && s[0] == '-';
    let body = if s.len() > 0 && (s[0] == '-' || s[0] == '+') {
        s.skip(1)
    } else {
        s
    };
    if body.len() > 0 && all_digits(body) {
        let v = digits_val(body);
        if neg {
            if v <= 2147483648 {
                Some((-v) as i32)
            } else {
                None
            }
        } else {
            if v <= 2147483647 {
                Some(v as i32)
            } else {
                None
            }
        }
    } else {
        None
    }
}

/// Parses a base-10 integer exactly as `str::parse::<i32>` does.
pub fn parse_i32(s: &str) -> (r: Option<i32>)
    ensures
        r == parse_i32_spec(s@),
{
    let len = s.unicode_len();
    if len == 0 {
        return None;
    }
    let c0 = s.get_char(0);
    let neg = c0 == '-';
    let start: usize = if c0 == '-' || c0 == '+' {
        1
    } else {
        0
    };
    let ghost body = if s@.len() > 0 && (s@[0] == '-' || s@[0] == '+') {
        s@.skip(1)
    } else {
        s@
    };
    proof {
        assert(body =~= s@.skip(start as int));
    }
    if len == start {
        return None;
    }
    let mut i: usize = start;
    let mut val: u64 = 0;
    let mut over = false;
    while i < len
        invariant
            start <= i <= len,
            len == s@.len(),
            body == s@.skip(start as int),
            body == (if s@.len() > 0 && (s@[0] == '-' || s@[0] == '+') {
                s@.skip(1)
            } else {
                s@
            }),
            neg == (s@.len() > 0 && s@[0] == '-'),
            forall|k: int| start <= k < i ==> is_digit(s@[k]),
            !over ==> val == digits_val(s@.subrange(start as int, i as int)) && val <= 2147483648,
            over ==> digits_val(s@.subrange(start as int, i as int)) > 2147483648,
        decreases len - i,
    {
        let c = s.get_char(i);
        let u = c as u32;
        if u < 48 || u > 57 {
            proof {
                assert(!is_digit(body[i - start]));
                assert(!all_digits(body));
            }
            return None;
        }
        let d: u64 = (u - 48) as u64;
        proof {
            let pre = s@.subrange(start as int, i as int);
            let ext = s@.subrange(start as int, i + 1 as int);
            assert(ext.drop_last() =~= pre);
            assert(ext.last() == s@[i as int]);
            assert(forall|k: int| start <= k < i + 1 ==> is_digit(s@[k]));
            assert(all_digits(pre)) by {
                assert(forall|k: int| 0 <= k < pre.len() ==> pre[k] == s@[k + start]);
            }
            lemma_digits_val_nonneg(pre);
        }
        if over {
            proof {
                let pre = s@.subrange(start as int, i as int);
                let ext = s@.subrange(start as int, i + 1 as int);
                assert(digits_val(ext) == digits_val(pre) * 10 + digit_val(s@[i as int]));
                assert(digits_val(pre) * 10 >= digits_val(pre)) by (nonlinear_arith)
                    requires
                        digits_val(pre) > 2147483648,
                ;
            }
        } else {
            let nv: u64 = val * 10 + d;
            if nv > 2147483648 {
                over = true;
            } else {
                val = nv;
            }
        }
        i = i + 1;
    }
    proof {
        assert(s@.subrange(start as int, len as int) =~= body);
        assert(all_digits(body));
        assert(body.len() > 0);
    }
    if over {
        return None;
    }
    if neg {
        if val == 2147483648 {
            Some(i32::MIN)
        } else {
            Some(0i32 - (val as i32))
        }
    } else {
        if val > 2147483647 {
            None
        } else {
            Some(val as i32)
        }
    }
}

} // verus!
