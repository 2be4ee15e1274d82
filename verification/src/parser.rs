//! The scene-description text parser.
//!
//! A whitespace tokenizer over an in-memory byte buffer feeds a
//! recursive-descent reader of the scene grammar: camera, lights,
//! spheres and polygon sets. Numbers are read as fixed-point scalars
//! with an exact specification; all coordinates are clamped into the
//! geometry budget, so every parsed scene is well formed. Malformed
//! input is reported as an error, never a panic.

use vstd::prelude::*;
use crate::color::{Color, Material, clamp_channel};
use crate::vec3::{Vec3, in_range, PMAX, DIRMAX};
use crate::scene::{Scene, BvhScene, Camera, Light, PointLight, AreaLight, DirectionalLight};
use crate::sphere::Sphere;
use crate::poly::{Poly, Vertex};
use crate::shapes::Primitive;
use crate::mesh::Mesh;

verus! {

/// The value of a run of decimal digits.
pub open spec fn digits_val(s: Seq<u8>) -> int
    decreases s.len(),
{
    if s.len() == 0 {
        0
    } else {
        digits_val(s.drop_last()) * 10 + (s.last() - 48)
    }
}

pub open spec fn all_digits(s: Seq<u8>) -> bool {
    forall|i: int| 0 <= i < s.len() ==> 48 <= #[trigger] s[i] <= 57
}

/// Ten to the `n`.
pub open spec fn pow10(n: nat) -> int
    decreases n,
{
    if n == 0 {
        1
    } else {
        10 * pow10((n - 1) as nat)
    }
}

/// The first six entries of a run, or all of it when shorter.
pub open spec fn take6(s: Seq<u8>) -> Seq<u8> {
    if s.len() >= 6 {
        s.subrange(0, 6)
    } else {
        s
    }
}

/// The value of a fraction-digit run, scaled to millionths and
/// truncated after six digits.
pub open spec fn frac_val6(s: Seq<u8>) -> int {
    digits_val(take6(s)) * pow10((6 - take6(s).len()) as nat)
}

/// The first dot of a token, or its length.
pub open spec fn dot_pos(s: Seq<u8>) -> int
    decreases s.len(),
{
    if s.len() == 0 {
        0
    } else if s[0] == 46 {
        0
    } else {
        1 + dot_pos(s.drop_first())
    }
}

/// The fixed-point value of a decimal token: an optional sign, an
/// integer digit run of at most twelve digits, and an optional dot
/// and fraction digit run, at least one digit in all. Anything else
/// has no value.
pub open spec fn fixed_of_token(s: Seq<u8>) -> Option<int> {
    let neg = s.len() > 0 && s[0] == 45;
    let body = if s.len() > 0 && (s[0] == 45 || s[0] == 43) {
        s.drop_first()
    } else {
        s
    };
    let d = dot_pos(body);
    let ip = body.subrange(0, d);
    let fp = if d < body.len() {
        body.subrange(d + 1, body.len() as int)
    } else {
        Seq::empty()
    };
    if !all_digits(ip) || !all_digits(fp) || ip.len() + fp.len() == 0 || ip.len() > 12 {
        None
    } else {
        let v = digits_val(ip) * (crate::fixed::UNIT as int) + frac_val6(fp);
        Some(if neg { -v } else { v })
    }
}

/// One parse error: the grammar or a number did not match.
#[derive(Clone, Copy, Debug, PartialEq, Eq, Structural)]
pub struct ParseError;

pub struct SceneParser {
    pub bytes: Vec<u8>,
    pub pos: usize,
    pub finished: bool,
    pub peaked: bool,
    pub last_token: Option<Vec<u8>>,
}

impl SceneParser {
    pub open spec fn wf(self) -> bool {
        self.pos <= self.bytes@.len()
    }

    /// Termination budget: unread bytes, a possible stored token, and
    /// the pending end-of-input step.
    pub open spec fn fuel(self) -> int {
        self.bytes@.len() - self.pos + (if self.peaked { 1int } else { 0 })
            + (if self.finished { 0int } else { 1 })
    }

    /// A parser over an in-memory scene text.
    pub fn new(scene: Vec<u8>) -> (p: SceneParser)
        ensures
            p.wf(),
    {
        SceneParser {
            bytes: scene,
            pos: 0,
            finished: false,
            peaked: false,
            last_token: None,
        }
    }

    pub fn has_next_token(&self) -> (b: bool)
        ensures
            b == !self.finished,
    {
        !self.finished
    }

    /// The next token without consuming it.
    pub fn peak(&mut self) -> (tkn: Vec<u8>)
        requires
            old(self).wf(),
        ensures
            final(self).wf(),
            final(self).fuel() <= old(self).fuel(),
            final(self).bytes == old(self).bytes,
    {
        if self.peaked {
            match &self.last_token {
                Some(tkn) => {
                    return clone_bytes(tkn);
                },
                None => {
                    return Vec::new();
                },
            }
        }
        if self.finished {
            return Vec::new();
        }
        let tkn = self.next_token();
        self.last_token = Some(clone_bytes(&tkn));
        self.peaked = true;
        tkn
    }

    /// The next whitespace-separated token; empty at end of input.
    pub fn next_token(&mut self) -> (tkn: Vec<u8>)
        requires
            old(self).wf(),
        ensures
            final(self).wf(),
            final(self).fuel() < old(self).fuel() || (old(self).finished && !old(self).peaked),
            final(self).fuel() <= old(self).fuel(),
            final(self).bytes == old(self).bytes,
    {
        if self.peaked {
            let tkn = match &self.last_token {
                Some(tkn) => clone_bytes(tkn),
                None => Vec::new(),
            };
            self.last_token = None;
            self.peaked = false;
            return tkn;
        }

        let mut buf: Vec<u8> = Vec::new();
        loop
            invariant
                old(self).wf(),
                !old(self).peaked,
                self.wf(),
                self.bytes == old(self).bytes,
                self.peaked == old(self).peaked,
                self.finished == old(self).finished,
                self.pos >= old(self).pos,
                buf@.len() > 0 ==> self.pos > old(self).pos,
            decreases self.bytes@.len() - self.pos,
        {
            if self.pos >= self.bytes.len() {
                self.finished = true;
                return buf;
            }
            let c = self.bytes[self.pos];
            self.pos = self.pos + 1;
            if !is_whitespace(c) {
                buf.push(c);
            } else if buf.len() > 0 {
                return buf;
            }
        }
    }

    /// The next token as a fixed-point scalar; see `fixed_of_token`.
    pub fn next_num(&mut self) -> (r: Result<i64, ParseError>)
        requires
            old(self).wf(),
        ensures
            final(self).wf(),
            final(self).fuel() < old(self).fuel() || (old(self).finished && !old(self).peaked),
            final(self).fuel() <= old(self).fuel(),
            final(self).bytes == old(self).bytes,
            r matches Ok(v) ==> -10_000_000_000_000_000_000 < v < 10_000_000_000_000_000_000,
    {
        let tkn = self.next_token();
        parse_fixed(&tkn)
    }

    pub fn consume_next(&mut self)
        requires
            old(self).wf(),
        ensures
            final(self).wf(),
            final(self).fuel() < old(self).fuel() || (old(self).finished && !old(self).peaked),
            final(self).fuel() <= old(self).fuel(),
            final(self).bytes == old(self).bytes,
    {
        let _ = self.next_token();
    }

    /// Demand an exact keyword.
    pub fn check_and_consume(&mut self, token: &[u8]) -> (r: Result<(), ParseError>)
        requires
            old(self).wf(),
        ensures
            final(self).wf(),
            final(self).fuel() < old(self).fuel() || (old(self).finished && !old(self).peaked),
            final(self).fuel() <= old(self).fuel(),
            final(self).bytes == old(self).bytes,
    {
        let tkn = self.next_token();
        if bytes_eq(tkn.as_slice(), token) {
            Ok(())
        } else {
            Err(ParseError)
        }
    }

    /// A named scalar, clamped into `[-bound, bound]`.
    pub fn parse_scalar(&mut self, name: &[u8], bound: i64) -> (r: Result<i64, ParseError>)
        requires
            old(self).wf(),
            bound >= 0,
        ensures
            final(self).wf(),
            final(self).fuel() < old(self).fuel() || (old(self).finished && !old(self).peaked),
            final(self).fuel() <= old(self).fuel(),
            final(self).bytes == old(self).bytes,
            r matches Ok(v) ==> -bound <= v <= bound,
    {
        let c = self.check_and_consume(name);
        if c.is_err() {
            return Err(ParseError);
        }
        match self.next_num() {
            Ok(v) => Ok(clamp_i64(v, bound)),
            Err(e) => Err(e),
        }
    }

    /// A named vector, componentwise clamped into the geometry budget.
    pub fn parse_vec3(&mut self, name: &[u8], bound: i64) -> (r: Result<Vec3, ParseError>)
        requires
            old(self).wf(),
            bound >= 0,
        ensures
            final(self).wf(),
            final(self).fuel() < old(self).fuel() || (old(self).finished && !old(self).peaked),
            final(self).fuel() <= old(self).fuel(),
            final(self).bytes == old(self).bytes,
            r matches Ok(v) ==> in_range(v, bound as int),
    {
        let c = self.check_and_consume(name);
        if c.is_err() {
            return Err(ParseError);
        }
        let x = match self.next_num() {
            Ok(v) => clamp_i64(v, bound),
            Err(e) => { return Err(e); },
        };
        let y = match self.next_num() {
            Ok(v) => clamp_i64(v, bound),
            Err(e) => { return Err(e); },
        };
        let z = match self.next_num() {
            Ok(v) => clamp_i64(v, bound),
            Err(e) => { return Err(e); },
        };
        Ok(Vec3 { x, y, z })
    }

    /// A named colour: three channels, clamped by construction.
    pub fn parse_color(&mut self, color: &[u8]) -> (r: Result<Color, ParseError>)
        requires
            old(self).wf(),
        ensures
            final(self).wf(),
            final(self).fuel() < old(self).fuel() || (old(self).finished && !old(self).peaked),
            final(self).fuel() <= old(self).fuel(),
            final(self).bytes == old(self).bytes,
    {
        let c = self.check_and_consume(color);
        if c.is_err() {
            return Err(ParseError);
        }
        let r = match self.next_num() {
            Ok(v) => v,
            Err(e) => { return Err(e); },
        };
        let g = match self.next_num() {
            Ok(v) => v,
            Err(e) => { return Err(e); },
        };
        let b = match self.next_num() {
            Ok(v) => v,
            Err(e) => { return Err(e); },
        };
        Ok(Color::init(r, g, b))
    }

    /// A named flag: whether the next token equals `flag`.
    pub fn parse_bool(&mut self, name: &[u8], flag: &[u8]) -> (r: Result<bool, ParseError>)
        requires
            old(self).wf(),
        ensures
            final(self).wf(),
            final(self).fuel() < old(self).fuel() || (old(self).finished && !old(self).peaked),
            final(self).fuel() <= old(self).fuel(),
            final(self).bytes == old(self).bytes,
    {
        let c = self.check_and_consume(name);
        if c.is_err() {
            return Err(ParseError);
        }
        let tkn = self.next_token();
        Ok(bytes_eq(tkn.as_slice(), flag))
    }
}

/// Clone a byte vector.
fn clone_bytes(v: &Vec<u8>) -> (r: Vec<u8>)
    ensures
        r@ == v@,
{
    let mut out: Vec<u8> = Vec::new();
    let mut i: usize = 0;
    while i < v.len()
        invariant
            0 <= i <= v@.len(),
            out@ == v@.subrange(0, i as int),
        decreases v@.len() - i,
    {
        out.push(v[i]);
        i += 1;
    }
    proof {
        assert(v@.subrange(0, v@.len() as int) =~= v@);
    }
    out
}

/// Byte-slice equality.
pub fn bytes_eq(a: &[u8], b: &[u8]) -> (r: bool)
    ensures
        r == (a@ == b@),
{
    if a.len() != b.len() {
        proof {
            assert(a@.len() != b@.len());
        }
        return false;
    }
    let mut i: usize = 0;
    while i < a.len()
        invariant
            0 <= i <= a@.len(),
            a@.len() == b@.len(),
            forall|j: int| 0 <= j < i ==> a@[j] == b@[j],
        decreases a@.len() - i,
    {
        if a[i] != b[i] {
            return false;
        }
        i += 1;
    }
    proof {
        assert(a@ =~= b@);
    }
    true
}

fn is_whitespace(c: u8) -> (r: bool)
    ensures
        r == (c == 32 || c == 9 || c == 10 || c == 13),
{
    c == 32 || c == 9 || c == 10 || c == 13
}

fn clamp_i64(v: i64, bound: i64) -> (r: i64)
    requires
        bound >= 0,
    ensures
        -bound <= r <= bound,
        r == if v < -bound { -bound as int } else if v > bound { bound as int } else { v as int },
{
    if v < -bound {
        -bound
    } else if v > bound {
        bound
    } else {
        v
    }
}

/// Parse a decimal token into a fixed-point scalar: accepted tokens
/// are valued exactly as `fixed_of_token` says, and exactly the
/// tokens without a value are rejected.
pub fn parse_fixed(tkn: &Vec<u8>) -> (r: Result<i64, ParseError>)
    ensures
        match fixed_of_token(tkn@) {
            Some(v) => r matches Ok(x) && x == v,
            None => r is Err,
        },
        r matches Ok(v) ==> -10_000_000_000_000_000_000 < v < 10_000_000_000_000_000_000,
{
    let ghost s = tkn@;
    let n = tkn.len();
    let mut i: usize = 0;
    let neg = n > 0 && tkn[0] == 45;
    if n > 0 && (tkn[0] == 45 || tkn[0] == 43) {
        i = 1;
    }
    let start_ip = i;
    let ghost body = if s.len() > 0 && (s[0] == 45 || s[0] == 43) { s.drop_first() } else { s };
    proof {
        assert(body =~= s.subrange(start_ip as int, s.len() as int));
    }

    let mut ipv: i64 = 0;
    while i < n && tkn[i] != 46
        invariant
            start_ip <= i <= n,
            n == s.len(),
            s == tkn@,
            start_ip == (if s.len() > 0 && (s[0] == 45 || s[0] == 43) { 1int } else { 0 }),
            body == s.subrange(start_ip as int, s.len() as int),
            body == (if s.len() > 0 && (s[0] == 45 || s[0] == 43) { s.drop_first() } else { s }),
            forall|j: int| start_ip <= j < i ==> s[j] != 46,
            all_digits(s.subrange(start_ip as int, i as int)),
            ipv == digits_val(s.subrange(start_ip as int, i as int)),
            0 <= ipv <= 20_000_000_000_009,
        decreases n - i,
    {
        let c = tkn[i];
        if c < 48 || c > 57 {
            proof {
                lemma_dot_pos_le(body);
                assert forall|jj: int| 0 <= jj < i as int + 1 - start_ip as int
                    implies body[jj] != 46 by {
                    assert(body[jj] == s[start_ip + jj]);
                }
                lemma_dot_pos_lower(body, i as int + 1 - start_ip as int);
                let d = dot_pos(body);
                let ip = body.subrange(0, d);
                assert(ip[i as int - start_ip as int] == body[i as int - start_ip as int]);
                assert(body[i as int - start_ip as int] == s[i as int]);
                assert(!(48 <= ip[i as int - start_ip as int] <= 57));
                assert(!all_digits(ip));
            }
            return Err(ParseError);
        }
        if ipv > 2_000_000_000_000 {
            proof {
                lemma_dot_pos_le(body);
                assert forall|jj: int| 0 <= jj < i as int - start_ip as int
                    implies body[jj] != 46 by {
                    assert(body[jj] == s[start_ip + jj]);
                }
                lemma_dot_pos_lower(body, i as int - start_ip as int);
                let pre = s.subrange(start_ip as int, i as int);
                lemma_digits_bound(pre);
                lemma_pow10_le12(12);
                assert(pre.len() > 12) by {
                    if pre.len() <= 12 {
                        lemma_pow10_mono(pre.len() as nat, 12);
                    }
                }
                let d = dot_pos(body);
                let ip = body.subrange(0, d);
                assert(ip.len() > 12);
            }
            return Err(ParseError);
        }
        let ghost pre = s.subrange(start_ip as int, i as int);
        ipv = ipv * 10 + (c - 48) as i64;
        proof {
            let post = s.subrange(start_ip as int, i as int + 1);
            assert(post.drop_last() =~= pre);
            assert(post.last() == s[i as int]);
            assert(forall|j: int| 0 <= j < post.len() ==> 48 <= #[trigger] post[j] <= 57);
        }
        i += 1;
    }
    let ip_len = i - start_ip;
    let ghost ip_seq = s.subrange(start_ip as int, i as int);
    proof {
        lemma_dot_pos_prefix(body, i as int - start_ip as int);
        assert(ip_seq =~= body.subrange(0, dot_pos(body)));
    }
    if ip_len > 12 {
        return Err(ParseError);
    }
    proof {
        lemma_digits_bound(ip_seq);
        lemma_pow10_le12(ip_seq.len() as nat);
    }

    let mut fpv: i64 = 0;
    let mut fdigits: u64 = 0;
    let has_dot = i < n;
    let start_fp = if has_dot { i + 1 } else { i };
    let mut j: usize = start_fp;
    while j < n
        invariant
            start_fp <= j <= n,
            n == s.len(),
            s == tkn@,
            start_ip == (if s.len() > 0 && (s[0] == 45 || s[0] == 43) { 1int } else { 0 }),
            body == s.subrange(start_ip as int, s.len() as int),
            body == (if s.len() > 0 && (s[0] == 45 || s[0] == 43) { s.drop_first() } else { s }),
            dot_pos(body) == i as int - start_ip as int,
            start_ip <= i <= n,
            has_dot ==> start_fp == i + 1,
            j < n ==> has_dot,
            fdigits == if j - start_fp <= 6 { (j - start_fp) as int } else { 6int },
            all_digits(s.subrange(start_fp as int, j as int)),
            fpv == digits_val(take6(s.subrange(start_fp as int, j as int))),
            0 <= fpv < 1_000_000,
        decreases n - j,
    {
        let c = tkn[j];
        if c < 48 || c > 57 {
            proof {
                let d = dot_pos(body);
                let fp = body.subrange(d + 1, body.len() as int);
                assert(fp[j as int - start_fp as int] == body[d + 1 + (j as int - start_fp as int)]);
                assert(body[d + 1 + (j as int - start_fp as int)] == s[j as int]);
                assert(!(48 <= fp[j as int - start_fp as int] <= 57));
                assert(!all_digits(fp));
            }
            return Err(ParseError);
        }
        let ghost pre = s.subrange(start_fp as int, j as int);
        proof {
            let post = s.subrange(start_fp as int, j as int + 1);
            assert(post.drop_last() =~= pre);
            assert(post.last() == s[j as int]);
            assert(forall|k: int| 0 <= k < post.len() ==> 48 <= #[trigger] post[k] <= 57);
            if pre.len() >= 6 {
                assert(take6(post) =~= take6(pre));
            } else {
                assert(take6(post) =~= post);
                assert(take6(pre) =~= pre);
                assert(take6(post).drop_last() =~= take6(pre));
                lemma_digits_bound(take6(pre));
                lemma_pow10_mono(take6(pre).len() as nat, 5);
                lemma_pow10_small();
            }
        }
        if fdigits < 6 {
            fpv = fpv * 10 + (c - 48) as i64;
            fdigits += 1;
        }
        j += 1;
    }

    if ip_len == 0 && (!has_dot || start_fp == n) {
        proof {
            if has_dot {
                let fp = body.subrange(dot_pos(body) + 1, body.len() as int);
                assert(fp =~= Seq::<u8>::empty());
            }
        }
        return Err(ParseError);
    }

    let ghost fp_seq = s.subrange(start_fp as int, n as int);
    proof {
        if has_dot {
            assert(fp_seq =~= body.subrange(dot_pos(body) + 1, body.len() as int));
        } else {
            assert(fp_seq =~= Seq::<u8>::empty());
        }
        lemma_frac_combined(fp_seq, fpv as int, fdigits as nat);
        assert(fp_seq.len() == (if has_dot { n as int - start_fp as int } else { 0int }));
        lemma_pow10_bound((6 - fdigits) as nat);
    }
    let scale: i64 = pow10_exec(6 - fdigits);
    proof {
        assert(forall|k: int| 0 <= k < take6(fp_seq).len() ==> 48 <= #[trigger] take6(fp_seq)[k] <= 57);
        lemma_digits_bound(take6(fp_seq));
        assert(fpv * (scale as int) <= 1_000_000_000_000) by (nonlinear_arith)
            requires 0 <= fpv < 1_000_000, 1 <= scale <= 1_000_000,
        ;
        assert(fpv * (scale as int) >= 0) by (nonlinear_arith)
            requires 0 <= fpv, scale >= 1,
        ;
    }
    let v = ipv * 1_000_000 + fpv * scale;
    if neg {
        Ok(-v)
    } else {
        Ok(v)
    }
}

/// Twelve digits stay under the integer cap.
proof fn lemma_pow10_le12(n: nat)
    requires
        n <= 12,
    ensures
        pow10(n) <= 1_000_000_000_000,
{
    lemma_pow10_mono(n, 12);
    lemma_pow10_small();
}

/// Ten to a small power.
fn pow10_exec(n: u64) -> (r: i64)
    requires
        n <= 6,
    ensures
        r == pow10(n as nat),
        1 <= r <= 1_000_000,
{
    let mut acc: i64 = 1;
    let mut k: u64 = 0;
    while k < n
        invariant
            0 <= k <= n <= 6,
            acc == pow10(k as nat),
            1 <= acc <= 1_000_000,
        decreases n - k,
    {
        proof { lemma_pow10_bound((k + 1) as nat); }
        acc = acc * 10;
        k += 1;
    }
    acc
}

proof fn lemma_pow10_bound(n: nat)
    requires
        n <= 6,
    ensures
        1 <= pow10(n) <= 1_000_000,
{
    lemma_pow10_pos(n);
    lemma_pow10_mono(n, 6);
    lemma_pow10_small();
}

/// `pow10` is monotone.
proof fn lemma_pow10_mono(a: nat, b: nat)
    requires
        a <= b,
    ensures
        pow10(a) <= pow10(b),
    decreases b,
{
    if a < b {
        lemma_pow10_mono(a, (b - 1) as nat);
        lemma_pow10_pos((b - 1) as nat);
    }
}

/// The small powers of ten, by unfolding.
proof fn lemma_pow10_small()
    ensures
        pow10(5) == 100_000,
        pow10(6) == 1_000_000,
        pow10(12) == 1_000_000_000_000,
{
    reveal_with_fuel(pow10, 14);
}

/// The dot position never exceeds the length.
proof fn lemma_dot_pos_le(s: Seq<u8>)
    ensures
        0 <= dot_pos(s) <= s.len(),
    decreases s.len(),
{
    if s.len() > 0 && s[0] != 46 {
        lemma_dot_pos_le(s.drop_first());
    }
}

/// A sequence whose first `k` entries are not dots has its dot at `k`
/// or later.
proof fn lemma_dot_pos_lower(s: Seq<u8>, k: int)
    requires
        0 <= k <= s.len(),
        forall|j: int| 0 <= j < k ==> s[j] != 46,
    ensures
        dot_pos(s) >= k,
    decreases s.len(),
{
    lemma_dot_pos_le(s);
    if s.len() > 0 && k > 0 {
        assert(s[0] != 46);
        lemma_dot_pos_le(s.drop_first());
        lemma_dot_pos_lower(s.drop_first(), k - 1);
    }
}

/// The dot position of a sequence whose first `k` entries are not
/// dots, and whose entry `k` (if any) is a dot, is `k`.
proof fn lemma_dot_pos_prefix(s: Seq<u8>, k: int)
    requires
        0 <= k <= s.len(),
        forall|j: int| 0 <= j < k ==> s[j] != 46,
        k < s.len() ==> s[k] == 46,
    ensures
        dot_pos(s) == k,
    decreases s.len(),
{
    if s.len() > 0 && k > 0 {
        assert(s[0] != 46);
        lemma_dot_pos_prefix(s.drop_first(), k - 1);
    }
}

/// Digit runs are valued below their length's power of ten.
proof fn lemma_digits_bound(s: Seq<u8>)
    requires
        all_digits(s),
    ensures
        0 <= digits_val(s) < pow10(s.len()),
    decreases s.len(),
{
    if s.len() > 0 {
        assert(forall|i: int| 0 <= i < s.drop_last().len() ==> 48 <= #[trigger] s.drop_last()[i] <= 57);
        lemma_digits_bound(s.drop_last());
        assert(digits_val(s) == digits_val(s.drop_last()) * 10 + (s.last() - 48));
        assert(digits_val(s.drop_last()) * 10 + 9 < pow10(s.len())) by (nonlinear_arith)
            requires
                digits_val(s.drop_last()) < pow10((s.len() - 1) as nat),
                pow10(s.len()) == 10 * pow10((s.len() - 1) as nat),
                pow10((s.len() - 1) as nat) >= 1,
        ;
        lemma_pow10_pos((s.len() - 1) as nat);
    }
}

proof fn lemma_pow10_pos(n: nat)
    ensures
        pow10(n) >= 1,
    decreases n,
{
    if n > 0 {
        lemma_pow10_pos((n - 1) as nat);
    }
}

/// The combined fraction value matches `frac_val6`.
proof fn lemma_frac_combined(s: Seq<u8>, fpv: int, fdigits: nat)
    requires
        fpv == digits_val(take6(s)),
        fdigits == if s.len() <= 6 { s.len() } else { 6nat },
    ensures
        fpv * pow10((6 - fdigits) as nat) == frac_val6(s),
{
}

impl SceneParser {
    /// The next token as a small non-negative integer count.
    pub fn next_count(&mut self) -> (r: Result<usize, ParseError>)
        requires
            old(self).wf(),
        ensures
            final(self).wf(),
            final(self).fuel() < old(self).fuel() || (old(self).finished && !old(self).peaked),
            final(self).fuel() <= old(self).fuel(),
            final(self).bytes == old(self).bytes,
            r matches Ok(v) ==> v <= 10_000_000,
    {
        match self.next_num() {
            Ok(v) => {
                if v < 0 || v % 1_000_000 != 0 {
                    Err(ParseError)
                } else {
                    let c = v / 1_000_000;
                    if c > 10_000_000 {
                        Err(ParseError)
                    } else {
                        Ok(c as usize)
                    }
                }
            },
            Err(e) => Err(e),
        }
    }

    /// One light: its keyword has already been peeked.
    pub fn parse_light(&mut self) -> (r: Result<Light, ParseError>)
        requires
            old(self).wf(),
        ensures
            final(self).wf(),
            final(self).fuel() < old(self).fuel() || (old(self).finished && !old(self).peaked),
            final(self).fuel() <= old(self).fuel(),
            final(self).bytes == old(self).bytes,
            r matches Ok(l) ==> l.wf(),
    {
        let keyword = self.next_token();

        if self.check_and_consume("{".as_bytes()).is_err() {
            return Err(ParseError);
        }

        let light: Light = if bytes_eq(keyword.as_slice(), "point_light".as_bytes()) {
            let pos = match self.parse_vec3("position".as_bytes(), PMAX) {
                Ok(v) => v,
                Err(e) => { return Err(e); },
            };
            let intensity = match self.parse_color("color".as_bytes()) {
                Ok(c) => c,
                Err(e) => { return Err(e); },
            };
            Light::Point(PointLight { pos, intensity })
        } else if bytes_eq(keyword.as_slice(), "area_light".as_bytes()) {
            let min = match self.parse_vec3("position".as_bytes(), PMAX) {
                Ok(v) => v,
                Err(e) => { return Err(e); },
            };
            let max = match self.parse_vec3("position".as_bytes(), PMAX) {
                Ok(v) => v,
                Err(e) => { return Err(e); },
            };
            let intensity = match self.parse_color("color".as_bytes()) {
                Ok(c) => c,
                Err(e) => { return Err(e); },
            };
            Light::Area(AreaLight { min, max, intensity })
        } else if bytes_eq(keyword.as_slice(), "directional_light".as_bytes()) {
            let dir = match self.parse_vec3("direction".as_bytes(), DIRMAX) {
                Ok(v) => v,
                Err(e) => { return Err(e); },
            };
            let intensity = match self.parse_color("color".as_bytes()) {
                Ok(c) => c,
                Err(e) => { return Err(e); },
            };
            Light::Directional(DirectionalLight { dir, intensity })
        } else {
            return Err(ParseError);
        };

        if self.check_and_consume("}".as_bytes()).is_err() {
            return Err(ParseError);
        }
        Ok(light)
    }

    /// One material block.
    pub fn parse_material(&mut self) -> (r: Result<Material, ParseError>)
        requires
            old(self).wf(),
        ensures
            final(self).wf(),
            final(self).fuel() < old(self).fuel() || (old(self).finished && !old(self).peaked),
            final(self).fuel() <= old(self).fuel(),
            final(self).bytes == old(self).bytes,
            r matches Ok(m) ==> m.wf(),
    {
        if self.check_and_consume("material".as_bytes()).is_err() {
            return Err(ParseError);
        }
        if self.check_and_consume("{".as_bytes()).is_err() {
            return Err(ParseError);
        }
        let diffuse = match self.parse_color("diffColor".as_bytes()) {
            Ok(c) => c,
            Err(e) => { return Err(e); },
        };
        let ambient = match self.parse_color("ambColor".as_bytes()) {
            Ok(c) => c,
            Err(e) => { return Err(e); },
        };
        let specular = match self.parse_color("specColor".as_bytes()) {
            Ok(c) => c,
            Err(e) => { return Err(e); },
        };
        let emissive = match self.parse_color("emisColor".as_bytes()) {
            Ok(c) => c,
            Err(e) => { return Err(e); },
        };
        let shininess = match self.parse_scalar("shininess".as_bytes(), 1_000_000_000_000) {
            Ok(v) => if v < 0 { 0 } else { v },
            Err(e) => { return Err(e); },
        };
        let transparency = match self.parse_scalar("ktran".as_bytes(), crate::fixed::UNIT) {
            Ok(v) => if v < 0 { 0 } else { v },
            Err(e) => { return Err(e); },
        };
        if self.check_and_consume("}".as_bytes()).is_err() {
            return Err(ParseError);
        }
        Ok(Material { diffuse, ambient, specular, emissive, shininess, transparency })
    }

    /// One sphere block.
    pub fn parse_sphere(&mut self) -> (r: Result<Sphere, ParseError>)
        requires
            old(self).wf(),
        ensures
            final(self).wf(),
            final(self).fuel() < old(self).fuel() || (old(self).finished && !old(self).peaked),
            final(self).fuel() <= old(self).fuel(),
            final(self).bytes == old(self).bytes,
            r matches Ok(s) ==> s.wf(),
    {
        if self.check_and_consume("sphere".as_bytes()).is_err() {
            return Err(ParseError);
        }
        if self.check_and_consume("{".as_bytes()).is_err() {
            return Err(ParseError);
        }
        if self.check_and_consume("name".as_bytes()).is_err() {
            return Err(ParseError);
        }
        self.consume_next();
        if self.check_and_consume("numMaterials".as_bytes()).is_err() {
            return Err(ParseError);
        }
        let num_materials = match self.next_count() {
            Ok(v) => v,
            Err(e) => { return Err(e); },
        };
        let mut sphere = Sphere::new();
        let mut k: usize = 0;
        while k < num_materials
            invariant
                self.wf(),
                self.bytes == old(self).bytes,
                self.fuel() <= old(self).fuel(),
                self.fuel() < old(self).fuel() || (old(self).finished && !old(self).peaked),
                0 <= k <= num_materials,
                sphere.materials@.len() == k,
                forall|i: int| 0 <= i < sphere.materials@.len()
                    ==> (#[trigger] sphere.materials@[i]).wf(),
                sphere.origin == (Vec3 { x: 0, y: 0, z: 0 }),
                sphere.radius == 0,
            decreases num_materials - k,
        {
            let material = match self.parse_material() {
                Ok(m) => m,
                Err(e) => { return Err(e); },
            };
            sphere.materials.push(material);
            k += 1;
        }
        if num_materials == 0 {
            return Err(ParseError);
        }

        sphere.origin = match self.parse_vec3("origin".as_bytes(), PMAX) {
            Ok(v) => v,
            Err(e) => { return Err(e); },
        };
        sphere.radius = match self.parse_scalar("radius".as_bytes(), PMAX) {
            Ok(v) => if v < 0 { 0 } else { v },
            Err(e) => { return Err(e); },
        };
        sphere.xaxis = match self.parse_vec3("xaxis".as_bytes(), PMAX) {
            Ok(v) => v,
            Err(e) => { return Err(e); },
        };
        sphere.xlength = match self.parse_scalar("xlength".as_bytes(), PMAX) {
            Ok(v) => v,
            Err(e) => { return Err(e); },
        };
        sphere.yaxis = match self.parse_vec3("yaxis".as_bytes(), PMAX) {
            Ok(v) => v,
            Err(e) => { return Err(e); },
        };
        sphere.ylength = match self.parse_scalar("ylength".as_bytes(), PMAX) {
            Ok(v) => v,
            Err(e) => { return Err(e); },
        };
        sphere.zaxis = match self.parse_vec3("zaxis".as_bytes(), PMAX) {
            Ok(v) => v,
            Err(e) => { return Err(e); },
        };
        sphere.zlength = match self.parse_scalar("zlength".as_bytes(), PMAX) {
            Ok(v) => v,
            Err(e) => { return Err(e); },
        };
        if self.check_and_consume("}".as_bytes()).is_err() {
            return Err(ParseError);
        }
        Ok(sphere)
    }

    /// One polygon corner.
    pub fn parse_vertex(&mut self, has_normal: bool, has_material: bool) -> (r: Result<Vertex, ParseError>)
        requires
            old(self).wf(),
        ensures
            final(self).wf(),
            final(self).fuel() < old(self).fuel() || (old(self).finished && !old(self).peaked),
            final(self).fuel() <= old(self).fuel(),
            final(self).bytes == old(self).bytes,
            r matches Ok(v) ==> in_range(v.position, PMAX as int)
                && in_range(v.normal, PMAX as int)
                && v.has_normal == has_normal,
    {
        let pos = match self.parse_vec3("pos".as_bytes(), PMAX) {
            Ok(v) => v,
            Err(e) => { return Err(e); },
        };
        let mut vertex = Vertex::init(pos);

        if has_normal {
            vertex.normal = match self.parse_vec3("norm".as_bytes(), PMAX) {
                Ok(v) => v,
                Err(e) => { return Err(e); },
            };
            vertex.has_normal = true;
        }

        if has_material {
            if self.check_and_consume("materialIndex".as_bytes()).is_err() {
                return Err(ParseError);
            }
            let idx = match self.next_count() {
                Ok(v) => v,
                Err(e) => { return Err(e); },
            };
            vertex.mat_index = idx as u32;
        }
        Ok(vertex)
    }

    /// One polygon block.
    pub fn parse_poly(&mut self, has_normal: bool, has_material: bool) -> (r: Result<Poly, ParseError>)
        requires
            old(self).wf(),
        ensures
            final(self).wf(),
            final(self).fuel() < old(self).fuel() || (old(self).finished && !old(self).peaked),
            final(self).fuel() <= old(self).fuel(),
            final(self).bytes == old(self).bytes,
            r matches Ok(p) ==> p.materials@.len() == 0
                && in_range(p.vertices[0].position, PMAX as int)
                && in_range(p.vertices[1].position, PMAX as int)
                && in_range(p.vertices[2].position, PMAX as int)
                && in_range(p.vertices[0].normal, PMAX as int)
                && in_range(p.vertices[1].normal, PMAX as int)
                && in_range(p.vertices[2].normal, PMAX as int)
                && p.vertex_material == has_material
                && p.vertex_normal == has_normal,
    {
        if self.check_and_consume("poly".as_bytes()).is_err() {
            return Err(ParseError);
        }
        if self.check_and_consume("{".as_bytes()).is_err() {
            return Err(ParseError);
        }
        if self.check_and_consume("numVertices".as_bytes()).is_err() {
            return Err(ParseError);
        }
        self.consume_next();

        let v0 = match self.parse_vertex(has_normal, has_material) {
            Ok(v) => v,
            Err(e) => { return Err(e); },
        };
        let v1 = match self.parse_vertex(has_normal, has_material) {
            Ok(v) => v,
            Err(e) => { return Err(e); },
        };
        let v2 = match self.parse_vertex(has_normal, has_material) {
            Ok(v) => v,
            Err(e) => { return Err(e); },
        };
        let poly = Poly {
            materials: Vec::new(),
            vertices: [v0, v1, v2],
            vertex_material: has_material,
            vertex_normal: has_normal,
        };
        if self.check_and_consume("}".as_bytes()).is_err() {
            return Err(ParseError);
        }
        Ok(poly)
    }

    /// One polygon-set block: a shared material list, the binding
    /// flags, and the polygons, each given its own material list as
    /// the vertex binding demands.
    pub fn parse_polyset(&mut self) -> (r: Result<Vec<Poly>, ParseError>)
        requires
            old(self).wf(),
        ensures
            final(self).wf(),
            final(self).fuel() < old(self).fuel() || (old(self).finished && !old(self).peaked),
            final(self).fuel() <= old(self).fuel(),
            final(self).bytes == old(self).bytes,
            r matches Ok(polys) ==> forall|i: int| 0 <= i < polys@.len()
                ==> (#[trigger] polys@[i]).wf(),
    {
        if self.check_and_consume("poly_set".as_bytes()).is_err() {
            return Err(ParseError);
        }
        if self.check_and_consume("{".as_bytes()).is_err() {
            return Err(ParseError);
        }
        if self.check_and_consume("name".as_bytes()).is_err() {
            return Err(ParseError);
        }
        self.consume_next();
        if self.check_and_consume("numMaterials".as_bytes()).is_err() {
            return Err(ParseError);
        }
        let num_materials = match self.next_count() {
            Ok(v) => v,
            Err(e) => { return Err(e); },
        };
        let mut materials: Vec<Material> = Vec::new();
        let mut k: usize = 0;
        while k < num_materials
            invariant
                self.wf(),
                self.bytes == old(self).bytes,
                self.fuel() <= old(self).fuel(),
                self.fuel() < old(self).fuel() || (old(self).finished && !old(self).peaked),
                0 <= k <= num_materials,
                materials@.len() == k,
                forall|i: int| 0 <= i < materials@.len()
                    ==> (#[trigger] materials@[i]).wf(),
            decreases num_materials - k,
        {
            let material = match self.parse_material() {
                Ok(m) => m,
                Err(e) => { return Err(e); },
            };
            materials.push(material);
            k += 1;
        }
        if num_materials == 0 {
            return Err(ParseError);
        }

        if self.check_and_consume("type".as_bytes()).is_err() {
            return Err(ParseError);
        }
        self.consume_next();
        let per_vertex_normal = match self.parse_bool("normType".as_bytes(), "PER_VERTEX_NORMAL".as_bytes()) {
            Ok(b) => b,
            Err(e) => { return Err(e); },
        };
        let material_binding = match self.parse_bool("materialBinding".as_bytes(), "PER_VERTEX_MATERIAL".as_bytes()) {
            Ok(b) => b,
            Err(e) => { return Err(e); },
        };
        if self.check_and_consume("hasTextureCoords".as_bytes()).is_err() {
            return Err(ParseError);
        }
        self.consume_next();
        if self.check_and_consume("rowSize".as_bytes()).is_err() {
            return Err(ParseError);
        }
        self.consume_next();
        if self.check_and_consume("numPolys".as_bytes()).is_err() {
            return Err(ParseError);
        }
        let num_polys = match self.next_count() {
            Ok(v) => v,
            Err(e) => { return Err(e); },
        };
        let mut polyset: Vec<Poly> = Vec::new();
        let mut p: usize = 0;
        while p < num_polys
            invariant
                self.wf(),
                self.bytes == old(self).bytes,
                self.fuel() <= old(self).fuel(),
                self.fuel() < old(self).fuel() || (old(self).finished && !old(self).peaked),
                0 <= p <= num_polys,
                materials@.len() >= 1,
                forall|i: int| 0 <= i < materials@.len()
                    ==> (#[trigger] materials@[i]).wf(),
                forall|i: int| 0 <= i < polyset@.len() ==> (#[trigger] polyset@[i]).wf(),
            decreases num_polys - p,
        {
            let mut poly = match self.parse_poly(per_vertex_normal, material_binding) {
                Ok(pl) => pl,
                Err(e) => { return Err(e); },
            };

            if material_binding {
                let i0 = clamp_index(poly.vertices[0].mat_index as usize, materials.len());
                let i1 = clamp_index(poly.vertices[1].mat_index as usize, materials.len());
                let i2 = clamp_index(poly.vertices[2].mat_index as usize, materials.len());
                let mut v0 = poly.vertices[0];
                let mut v1 = poly.vertices[1];
                let mut v2 = poly.vertices[2];
                poly.materials.push(materials[i0]);
                v0.mat_index = 0;
                if i1 != i0 {
                    poly.materials.push(materials[i1]);
                    v1.mat_index = 1;
                } else {
                    v1.mat_index = 0;
                }
                if i2 != i1 && i2 != i0 {
                    poly.materials.push(materials[i2]);
                    v2.mat_index = (poly.materials.len() - 1) as u32;
                } else if i2 == i1 && i2 != i0 {
                    v2.mat_index = 1;
                } else {
                    v2.mat_index = 0;
                }
                poly.vertices = [v0, v1, v2];
            } else {
                poly.materials.push(materials[0]);
            }
            polyset.push(poly);
            p += 1;
        }

        if self.check_and_consume("}".as_bytes()).is_err() {
            return Err(ParseError);
        }
        Ok(polyset)
    }

    /// The camera block.
    pub fn parse_camera(&mut self) -> (r: Result<Camera, ParseError>)
        requires
            old(self).wf(),
        ensures
            final(self).wf(),
            final(self).fuel() < old(self).fuel() || (old(self).finished && !old(self).peaked),
            final(self).fuel() <= old(self).fuel(),
            final(self).bytes == old(self).bytes,
            r matches Ok(c) ==> c.wf(),
    {
        if self.check_and_consume("camera".as_bytes()).is_err() {
            return Err(ParseError);
        }
        if self.check_and_consume("{".as_bytes()).is_err() {
            return Err(ParseError);
        }
        let pos = match self.parse_vec3("position".as_bytes(), PMAX) {
            Ok(v) => v,
            Err(e) => { return Err(e); },
        };
        let view_dir = match self.parse_vec3("viewDirection".as_bytes(), PMAX) {
            Ok(v) => v,
            Err(e) => { return Err(e); },
        };
        let focal_dist = match self.parse_scalar("focalDistance".as_bytes(), PMAX) {
            Ok(v) => v,
            Err(e) => { return Err(e); },
        };
        let ortho_up = match self.parse_vec3("orthoUp".as_bytes(), PMAX) {
            Ok(v) => v,
            Err(e) => { return Err(e); },
        };
        let vertical_fov = match self.parse_scalar("verticalFOV".as_bytes(), 6_300_000) {
            Ok(v) => if v < 0 { 0 } else { v },
            Err(e) => { return Err(e); },
        };
        if self.check_and_consume("}".as_bytes()).is_err() {
            return Err(ParseError);
        }
        Ok(Camera { pos, view_dir, focal_dist, ortho_up, vertical_fov })
    }

    /// The whole scene: the header, then camera, spheres, polygon
    /// sets and lights in any order.
    pub fn parse_scene(&mut self) -> (r: Result<Scene, ParseError>)
        requires
            old(self).wf(),
        ensures
            final(self).wf(),
            r matches Ok(s) ==> crate::scene::IntersectableScene::wf(&s),
    {
        if self.check_and_consume("Composer".as_bytes()).is_err() {
            return Err(ParseError);
        }
        if self.check_and_consume("format".as_bytes()).is_err() {
            return Err(ParseError);
        }
        if self.check_and_consume("2.1".as_bytes()).is_err() {
            return Err(ParseError);
        }
        if self.check_and_consume("ascii".as_bytes()).is_err() {
            return Err(ParseError);
        }

        let mut scene = Scene::new();

        let mut tkn = self.peak();
        while self.has_next_token()
            invariant
                self.wf(),
                crate::scene::IntersectableScene::wf(&scene),
            decreases self.fuel(),
        {
            let ghost fuel0 = self.fuel();
            if bytes_eq(tkn.as_slice(), "camera".as_bytes()) {
                scene.camera = match self.parse_camera() {
                    Ok(c) => c,
                    Err(e) => { return Err(e); },
                };
            } else if bytes_eq(tkn.as_slice(), "sphere".as_bytes()) {
                let sphere = match self.parse_sphere() {
                    Ok(s) => s,
                    Err(e) => { return Err(e); },
                };
                scene.primitives.push(Primitive::Sphere(sphere));
            } else if bytes_eq(tkn.as_slice(), "poly_set".as_bytes()) {
                let mut polyset = match self.parse_polyset() {
                    Ok(p) => p,
                    Err(e) => { return Err(e); },
                };
                let mut np = polyset.len();
                while np > 0
                    invariant
                        np == polyset@.len(),
                        forall|i: int| 0 <= i < polyset@.len()
                            ==> (#[trigger] polyset@[i]).wf(),
                        crate::scene::IntersectableScene::wf(&scene),
                    decreases np,
                {
                    match polyset.pop() {
                        Some(poly) => {
                            scene.primitives.push(Primitive::Poly(poly));
                        },
                        None => {},
                    }
                    np = polyset.len();
                }
            } else if ends_with(tkn.as_slice(), "light".as_bytes()) {
                let light = match self.parse_light() {
                    Ok(l) => l,
                    Err(e) => { return Err(e); },
                };
                scene.lights.push(light);
            } else {
                return Err(ParseError);
            }
            proof {
                assert(self.fuel() < fuel0);
            }
            tkn = self.peak();
        }
        Ok(scene)
    }

    /// The whole scene, accelerated: parse, then build the hierarchy.
    pub fn parse_bvh_scene(&mut self) -> (r: Result<BvhScene, ParseError>)
        requires
            old(self).wf(),
        ensures
            final(self).wf(),
            r matches Ok(s) ==> crate::scene::IntersectableScene::wf(&s),
    {
        match self.parse_scene() {
            Ok(scene) => Ok(BvhScene::from_scene(scene)),
            Err(e) => Err(e),
        }
    }

    /// A polygon set read into pooled mesh form: positions and
    /// normals appended per corner, materials de-duplicated by value
    /// across the whole set.
    pub fn parse_mesh(&mut self) -> (r: Result<Mesh, ParseError>)
        requires
            old(self).wf(),
        ensures
            final(self).wf(),
            r matches Ok(m) ==> m.wf() && (forall|i: int, j: int|
                0 <= i < j < m.materials@.len() ==> m.materials@[i] != m.materials@[j]),
    {
        let polyset = match self.parse_polyset() {
            Ok(p) => p,
            Err(e) => { return Err(e); },
        };
        let mut vertices: Vec<Vec3> = Vec::new();
        let mut normals: Vec<Vec3> = Vec::new();
        let mut materials: Vec<Material> = Vec::new();
        let mut polys: Vec<crate::mesh::PolyIndex> = Vec::new();

        let n = polyset.len();
        let mut p: usize = 0;
        while p < n
            invariant
                n == polyset@.len(),
                0 <= p <= n,
                forall|i: int| 0 <= i < polyset@.len() ==> (#[trigger] polyset@[i]).wf(),
                forall|i: int| 0 <= i < vertices@.len()
                    ==> in_range(#[trigger] vertices@[i], PMAX as int),
                forall|i: int| 0 <= i < normals@.len()
                    ==> in_range(#[trigger] normals@[i], PMAX as int),
                forall|i: int| 0 <= i < materials@.len()
                    ==> (#[trigger] materials@[i]).wf(),
                forall|i: int, j: int| 0 <= i < j < materials@.len()
                    ==> materials@[i] != materials@[j],
            decreases n - p,
        {
            let poly = &polyset[p];
            let mut vis: [crate::mesh::VertexIndex; 3] = [(0, None, None), (0, None, None), (0, None, None)];
            let mut k: usize = 0;
            while k < 3
                invariant
                    0 <= k <= 3,
                    n == polyset@.len(),
                    0 <= p < n,
                    forall|i: int| 0 <= i < polyset@.len() ==> (#[trigger] polyset@[i]).wf(),
                    forall|i: int| 0 <= i < vertices@.len()
                        ==> in_range(#[trigger] vertices@[i], PMAX as int),
                    forall|i: int| 0 <= i < normals@.len()
                        ==> in_range(#[trigger] normals@[i], PMAX as int),
                    forall|i: int| 0 <= i < materials@.len()
                        ==> (#[trigger] materials@[i]).wf(),
                    forall|i: int, j: int| 0 <= i < j < materials@.len()
                        ==> materials@[i] != materials@[j],
                    forall|i: int| 0 <= i < k ==> {
                        &&& (#[trigger] vis[i]).0 < vertices@.len()
                        &&& (vis[i].1 matches Some(x) ==> x < normals@.len())
                        &&& (vis[i].2 matches Some(x) ==> x < materials@.len())
                    },
                decreases 3 - k,
            {
                let v = polyset[p].vertices[k];
                vertices.push(v.position);
                let vi_pos = vertices.len() - 1;
                let ni = if v.has_normal {
                    normals.push(v.normal);
                    Some(normals.len() - 1)
                } else {
                    None
                };
                let mi = if polyset[p].vertex_material {
                    let mlen = polyset[p].materials.len();
                    let li = clamp_index(v.mat_index as usize, mlen);
                    let mat = polyset[p].materials[li];
                    Some(insert_material(&mut materials, mat))
                } else {
                    None
                };
                vis[k] = (vi_pos, ni, mi);
                k += 1;
            }
            polys.push((vis[0], vis[1], vis[2]));
            p += 1;
        }
        if materials.len() == 0 {
            let m = Material::new();
            materials.push(m);
        }
        proof {
            assert(forall|i: int, j: int| 0 <= i < j < materials@.len()
                ==> materials@[i] != materials@[j]);
        }
        Ok(Mesh::from_data(vertices, normals, materials, polys))
    }
}

/// An index clamped to the last element of a non-empty pool.
fn clamp_index(i: usize, len: usize) -> (r: usize)
    requires
        len >= 1,
    ensures
        r < len,
        r == if i < len { i as int } else { len - 1 },
{
    if i < len {
        i
    } else {
        len - 1
    }
}

/// The index of `m` in the pool, appending it first when absent; the
/// pool stays duplicate-free.
fn insert_material(materials: &mut Vec<Material>, m: Material) -> (r: usize)
    requires
        forall|i: int, j: int| 0 <= i < j < old(materials)@.len()
            ==> old(materials)@[i] != old(materials)@[j],
        forall|i: int| 0 <= i < old(materials)@.len()
            ==> (#[trigger] old(materials)@[i]).wf(),
        m.wf(),
    ensures
        r < final(materials)@.len(),
        final(materials)@[r as int] == m,
        forall|i: int, j: int| 0 <= i < j < final(materials)@.len()
            ==> final(materials)@[i] != final(materials)@[j],
        forall|i: int| 0 <= i < final(materials)@.len()
            ==> (#[trigger] final(materials)@[i]).wf(),
        final(materials)@.len() >= old(materials)@.len(),
        forall|i: int| 0 <= i < old(materials)@.len()
            ==> final(materials)@[i] == old(materials)@[i],
{
    let n = materials.len();
    let mut i: usize = 0;
    while i < n
        invariant
            n == materials@.len(),
            0 <= i <= n,
            materials@ == old(materials)@,
            forall|x: int, y: int| 0 <= x < y < materials@.len()
                ==> materials@[x] != materials@[y],
            forall|x: int| 0 <= x < materials@.len()
                ==> (#[trigger] materials@[x]).wf(),
            m.wf(),
            forall|j: int| 0 <= j < i ==> materials@[j] != m,
        decreases n - i,
    {
        if materials[i] == m {
            return i;
        }
        i += 1;
    }
    proof {
        assert(forall|x: int| 0 <= x < materials@.len()
            ==> (#[trigger] materials@[x]).wf());
    }
    let ghost pre = materials@;
    materials.push(m);
    proof {
        assert(materials@ == pre.push(m));
        assert forall|x: int, y: int| 0 <= x < y < materials@.len()
            implies materials@[x] != materials@[y] by {
            if y == materials@.len() - 1 {
                assert(materials@[x] == pre[x]);
                assert(materials@[y] == m);
            } else {
                assert(materials@[x] == pre[x]);
                assert(materials@[y] == pre[y]);
            }
        }
    }
    materials.len() - 1
}

/// Whether `a` ends with `b`.
fn ends_with(a: &[u8], b: &[u8]) -> (r: bool)
    ensures
        true,
{
    if b.len() > a.len() {
        return false;
    }
    let mut i: usize = 0;
    let alen: usize = a.len();
    let blen: usize = b.len();
    let off = alen - blen;
    while i < blen
        invariant
            0 <= i <= blen,
            alen == a@.len(),
            blen == b@.len(),
            blen <= alen,
            off == alen - blen,
        decreases blen - i,
    {
        if a[off + i] != b[i] {
            return false;
        }
        i += 1;
    }
    true
}

} // verus!
