//! Small utilities: human-readable byte counts, page-title extraction, and
//! the record of which GPU backends this build carries.

use crate::outside::ascii_lower_of;
use crate::textutil::{to_chars, trim_bounds, trim_spec};
use vstd::prelude::*;
use vstd::string::{StrSliceExecFns, StringExecFns};

verus! {

/// The decimal digit character for `d`.
pub open spec fn digit_char(d: int) -> char {
    if d == 0 {
        '0'
    } else if d == 1 {
        '1'
    } else if d == 2 {
        '2'
    } else if d == 3 {
        '3'
    } else if d == 4 {
        '4'
    } else if d == 5 {
        '5'
    } else if d == 6 {
        '6'
    } else if d == 7 {
        '7'
    } else if d == 8 {
        '8'
    } else {
        '9'
    }
}

/// The decimal digits of a non-negative number.
pub open spec fn dec_str(n: int) -> Seq<char>
    decreases n,
{
    if n < 10 {
        seq![digit_char(if n < 0 { 0 } else { n })]
    } else {
        dec_str(n / 10) + seq![digit_char(n % 10)]
    }
}

/// One decimal digit as text.
fn digit_str(d: u64) -> (r: &'static str)
    requires
        d < 10,
    ensures
        r@ == seq![digit_char(d as int)],
{
    proof {
        reveal_strlit("0");
        reveal_strlit("1");
        reveal_strlit("2");
        reveal_strlit("3");
        reveal_strlit("4");
        reveal_strlit("5");
        reveal_strlit("6");
        reveal_strlit("7");
        reveal_strlit("8");
        reveal_strlit("9");
    }
    if d == 0 {
        "0"
    } else if d == 1 {
        "1"
    } else if d == 2 {
        "2"
    } else if d == 3 {
        "3"
    } else if d == 4 {
        "4"
    } else if d == 5 {
        "5"
    } else if d == 6 {
        "6"
    } else if d == 7 {
        "7"
    } else if d == 8 {
        "8"
    } else {
        "9"
    }
}

/// A number in decimal.
pub fn u64_dec(n: u64) -> (r: String)
    ensures
        r@ == dec_str(n as int),
    decreases n,
{
    if n < 10 {
        String::from_str(digit_str(n))
    } else {
        let mut s = u64_dec(n / 10);
        s.append(digit_str(n % 10));
        s
    }
}

/// Bytes as a human-readable size: whole gigabytes, megabytes or kilobytes
/// with one (truncated) decimal place, or plain bytes below one kilobyte.
pub fn format_bytes(bytes: u64) -> (r: String)
    ensures
        bytes < 1024 ==> r@ == dec_str(bytes as int) + " B"@,
        1024 <= bytes < 1024 * 1024 ==> r@ == dec_str((bytes as int) * 10 / 1024 / 10) + "."@
            + seq![digit_char((bytes as int) * 10 / 1024 % 10)] + " KB"@,
        1024 * 1024 <= bytes < 1024 * 1024 * 1024 ==> r@ == dec_str(
            (bytes as int) * 10 / ((1024 * 1024) as int) / 10,
        ) + "."@ + seq![digit_char((bytes as int) * 10 / ((1024 * 1024) as int) % 10)] + " MB"@,
        bytes >= 1024 * 1024 * 1024 ==> r@ == dec_str(
            (bytes as int) * 10 / ((1024 * 1024 * 1024) as int) / 10,
        ) + "."@ + seq![digit_char((bytes as int) * 10 / ((1024 * 1024 * 1024) as int) % 10)] + " GB"@,
{
    let (unit, suffix): (u64, &'static str) = if bytes >= 1024 * 1024 * 1024 {
        (1024 * 1024 * 1024, " GB")
    } else if bytes >= 1024 * 1024 {
        (1024 * 1024, " MB")
    } else if bytes >= 1024 {
        (1024, " KB")
    } else {
        let mut s = u64_dec(bytes);
        s.append(" B");
        return s;
    };
    proof {
        let x = (bytes as int) * 10;
        assert(0 <= x < 0x1_0000_0000_0000_0000_0 && x / (unit as int) >= 0 && x / (unit as int)
            < 0x1_0000_0000_0000_0000) by {
            vstd::arithmetic::div_mod::lemma_div_is_ordered(0, x, unit as int);
            vstd::arithmetic::div_mod::lemma_fundamental_div_mod(x, unit as int);
            if x / (unit as int) >= 0x1_0000_0000_0000_0000 {
                vstd::arithmetic::mul::lemma_mul_inequality(
                    0x1_0000_0000_0000_0000,
                    x / (unit as int),
                    unit as int,
                );
                vstd::arithmetic::mul::lemma_mul_is_commutative(
                    x / (unit as int),
                    unit as int,
                );
                assert((unit as int) * 0x1_0000_0000_0000_0000 >= 1024
                    * 0x1_0000_0000_0000_0000) by (nonlinear_arith)
                    requires
                        unit as int >= 1024,
                ;
            }
        }
    }
    let tenths: u64 = ((bytes as u128) * 10 / (unit as u128)) as u64;
    let mut s = u64_dec(tenths / 10);
    s.append(".");
    s.append(digit_str(tenths % 10));
    s.append(suffix);
    proof {
        vstd::arithmetic::div_mod::lemma_fundamental_div_mod((bytes as int) * 10, unit as int);
    }
    s
}

/// `pat` occurs at `p` in `s`, and nowhere between `from` and `p`.
pub open spec fn first_match_at(s: Seq<char>, pat: Seq<char>, from: int, p: int) -> bool {
    &&& from <= p && p + pat.len() <= s.len()
    &&& s.subrange(p, p + pat.len()) == pat
    &&& forall|q: int| from <= q < p ==> #[trigger] s.subrange(q, q + pat.len()) != pat
}

/// `pat` occurs nowhere at or after `from` in `s`.
pub open spec fn no_match_from(s: Seq<char>, pat: Seq<char>, from: int) -> bool {
    forall|q: int|
        from <= q && q + pat.len() <= s.len() ==> #[trigger] s.subrange(q, q + pat.len()) != pat
}

/// The title of a page: the trimmed text between the first `<title>` and the
/// following `</title>`, found without regard to ASCII case; nothing exactly
/// when the opening tag is missing, no closing tag follows it, or the text
/// between them is blank.
pub fn extract_title_from_html(html: &str) -> (r: Option<String>)
    ensures
        match r {
            Option::Some(t) => exists|i: int, j: int|
                #![trigger first_match_at(ascii_lower_of(html@), "</title>"@, i + 7, j)]
                {
                    &&& first_match_at(ascii_lower_of(html@), "<title>"@, 0, i)
                    &&& first_match_at(ascii_lower_of(html@), "</title>"@, i + 7, j)
                    &&& t@ == trim_spec(html@.subrange(i + 7, j))
                    &&& t@.len() > 0
                },
            Option::None => no_match_from(ascii_lower_of(html@), "<title>"@, 0) || (exists|i: int|
                #[trigger] first_match_at(ascii_lower_of(html@), "<title>"@, 0, i) && (
                no_match_from(ascii_lower_of(html@), "</title>"@, i + 7) || (exists|j: int|
                    #[trigger] first_match_at(ascii_lower_of(html@), "</title>"@, i + 7, j)
                        && trim_spec(html@.subrange(i + 7, j)).len() == 0))),
        },
{
    let lower = crate::outside::ascii_lower(html);
    let lv = to_chars(lower.as_str());
    let open_tag = to_chars("<title>");
    let close_tag = to_chars("</title>");
    proof {
        reveal_strlit("<title>");
        reveal_strlit("</title>");
        assert(open_tag@.len() == 7);
        assert(close_tag@.len() == 8);
        assert(lv@.len() == html@.len());
        assert(lv@ == ascii_lower_of(html@));
    }
    let start = match find_sub_from(&lv, &open_tag, 0) {
        Option::Some(p) => p,
        Option::None => {
            return Option::None;
        },
    };
    let lv_len = lv.len();
    proof {
        assert(start + 7 <= lv_len);
    }
    let text_start = start + 7;
    let end = match find_sub_from(&lv, &close_tag, text_start) {
        Option::Some(p) => p,
        Option::None => {
            return Option::None;
        },
    };
    let hv = to_chars(html);
    proof {
        assert(lv@.len() == html@.len());
    }
    let (a, b) = trim_bounds(&hv, text_start, end);
    proof {
        assert(hv@.subrange(text_start as int, end as int) =~= html@.subrange(
            text_start as int,
            end as int,
        ));
        assert(first_match_at(ascii_lower_of(html@), "<title>"@, 0, start as int));
        assert(first_match_at(ascii_lower_of(html@), "</title>"@, start + 7, end as int));
    }
    if a == b {
        proof {
            assert(trim_spec(html@.subrange(text_start as int, end as int)).len() == 0);
        }
        return Option::None;
    }
    let t = String::from_str(html.substring_char(a, b));
    proof {
        assert(hv@.subrange(text_start as int, end as int) =~= html@.subrange(
            text_start as int,
            end as int,
        ));
        assert(t@ == trim_spec(html@.subrange(text_start as int, end as int)));
        assert(t@.len() > 0) by {
            assert(hv@.subrange(a as int, b as int).len() == b - a);
        }
    }
    Option::Some(t)
}

/// First position at or after `from` where `pat` occurs in `hay`: earlier
/// positions hold no occurrence, and a `None` means none exists at all.
fn find_sub_from(hay: &Vec<char>, pat: &Vec<char>, from: usize) -> (r: Option<usize>)
    requires
        pat@.len() >= 1,
    ensures
        match r {
            Option::Some(p) => first_match_at(hay@, pat@, from as int, p as int),
            Option::None => no_match_from(hay@, pat@, from as int),
        },
{
    let n = hay.len();
    let m = pat.len();
    if m > n || from > n - m {
        return Option::None;
    }
    let mut i = from;
    while i <= n - m
        invariant
            from <= i <= n - m + 1,
            1 <= m <= n,
            n == hay@.len(),
            m == pat@.len(),
            forall|q: int| from <= q < i ==> #[trigger] hay@.subrange(q, q + m) != pat@,
        decreases n - i,
    {
        let mut k: usize = 0;
        let mut eq = true;
        while k < m && eq
            invariant
                0 <= k <= m,
                i + m <= n,
                n == hay@.len(),
                m == pat@.len(),
                eq ==> forall|kk: int| 0 <= kk < k ==> hay@[i + kk] == #[trigger] pat@[kk],
                !eq ==> exists|kk: int| 0 <= kk < m && hay@[i + kk] != #[trigger] pat@[kk],
            decreases m - k + (if eq { 1int } else { 0 }),
        {
            if hay[i + k] != pat[k] {
                eq = false;
            } else {
                k = k + 1;
            }
        }
        if eq {
            proof {
                assert(hay@.subrange(i as int, i + pat@.len()) =~= pat@);
            }
            return Option::Some(i);
        }
        proof {
            let kk = choose|kk: int| 0 <= kk < m && hay@[i + kk] != #[trigger] pat@[kk];
            assert(hay@.subrange(i as int, i + m)[kk] == hay@[i + kk]);
            assert(hay@.subrange(i as int, i + m) != pat@);
        }
        i = i + 1;
    }
    Option::None
}

/// Which GPU backends were compiled into this build. This build carries
/// neither, so everything runs on the CPU.
pub struct GpuSupportInfo {
    pub metal_compiled: bool,
    pub cuda_compiled: bool,
}

/// The GPU backends of this build: none.
pub fn gpu_support_info() -> (r: GpuSupportInfo)
    ensures
        !r.metal_compiled,
        !r.cuda_compiled,
{
    GpuSupportInfo { metal_compiled: false, cuda_compiled: false }
}

impl GpuSupportInfo {
    /// Whether any GPU backend is available.
    pub fn any_gpu(&self) -> (r: bool)
        ensures
            r == (self.metal_compiled || self.cuda_compiled),
    {
        self.metal_compiled || self.cuda_compiled
    }

    /// A one-line summary of the available backends.
    pub fn summary(&self) -> (r: String)
        ensures
            self.metal_compiled && self.cuda_compiled ==> r@ == "Metal, CUDA"@,
            self.metal_compiled && !self.cuda_compiled ==> r@ == "Metal"@,
            !self.metal_compiled && self.cuda_compiled ==> r@ == "CUDA"@,
            !self.metal_compiled && !self.cuda_compiled ==> r@ == "None (CPU only)"@,
    {
        if self.metal_compiled && self.cuda_compiled {
            String::from_str("Metal, CUDA")
        } else if self.metal_compiled {
            String::from_str("Metal")
        } else if self.cuda_compiled {
            String::from_str("CUDA")
        } else {
            String::from_str("None (CPU only)")
        }
    }
}

} // verus!
