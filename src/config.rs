use vstd::prelude::*;

use crate::number::{dec_text, push_decimal};
use crate::secret::Secret;
use crate::text::{chars_of, range_is};
use crate::uci::strings_view;

verus! {

#[verifier::external_type_specification]
#[verifier::external_body]
pub struct ExPathBuf(std::path::PathBuf);

/// The engine executables to choose from, best first: each but the last is
/// for processors with a given set of instructions.
pub struct EngineOpts {
    pub engine_x86_64_vnni512: Option<std::path::PathBuf>,
    pub engine_x86_64_avx512: Option<std::path::PathBuf>,
    pub engine_x86_64_bmi2: Option<std::path::PathBuf>,
    pub engine_x86_64_avx2: Option<std::path::PathBuf>,
    pub engine_x86_64_sse41_popcnt: Option<std::path::PathBuf>,
    pub engine_x86_64_ssse3: Option<std::path::PathBuf>,
    pub engine_x86_64_sse3_popcnt: Option<std::path::PathBuf>,
    pub engine: std::path::PathBuf,
}

/// The instruction sets that the processor offers.
#[derive(Clone, Copy, Debug, PartialEq, Eq, Structural)]
pub struct CpuFeatures {
    pub avx512dq: bool,
    pub avx512vl: bool,
    pub avx512vnni: bool,
    pub avx512f: bool,
    pub avx512bw: bool,
    pub bmi2: bool,
    /// Whether PEXT and PDEP run in hardware rather than in slow microcode.
    pub fast_pext: bool,
    pub avx2: bool,
    pub sse41: bool,
    pub ssse3: bool,
    pub sse3: bool,
    pub popcnt: bool,
}

/// Whether PEXT is fast on a processor of the given vendor and family: AMD
/// emulated it slowly before family 0x19 (Zen 3).
pub open spec fn pext_fast_spec(vendor: Option<Seq<char>>, family: Option<u8>) -> bool {
    (match vendor {
        Some(v) => v != "AuthenticAMD"@,
        None => true,
    }) || (match family {
        Some(f) => f >= 0x19,
        None => false,
    })
}

pub fn pext_is_fast(vendor: Option<&str>, family: Option<u8>) -> (r: bool)
    ensures
        r == pext_fast_spec(
            match vendor {
                Some(v) => Some(v@),
                None => None,
            },
            family,
        ),
{
    let not_amd = match vendor {
        Some(v) => {
            let cs = chars_of(v);
            assert(cs@.subrange(0, cs@.len() as int) =~= v@);
            !range_is(&cs, 0, cs.len(), "AuthenticAMD")
        },
        None => true,
    };
    not_amd || match family {
        Some(f) => f >= 0x19,
        None => false,
    }
}

/// `x`, where the requirement `ok` holds.
pub open spec fn keep_if<T>(x: Option<T>, ok: bool) -> Option<T> {
    if ok {
        x
    } else {
        None
    }
}

pub open spec fn or_else<T>(x: Option<T>, y: Option<T>) -> Option<T> {
    if x is Some {
        x
    } else {
        y
    }
}

/// The executable to run: each candidate, from the best, is kept only while
/// its own requirement and those of all the lesser candidates hold; the
/// plain engine is the fallback.
pub open spec fn best_spec(o: EngineOpts, f: CpuFeatures) -> std::path::PathBuf {
    let x0 = keep_if(o.engine_x86_64_vnni512, f.avx512dq && f.avx512vl && f.avx512vnni);
    let x1 = keep_if(or_else(x0, o.engine_x86_64_avx512), f.avx512f && f.avx512bw);
    let x2 = keep_if(or_else(x1, o.engine_x86_64_bmi2), f.bmi2 && f.fast_pext);
    let x3 = keep_if(or_else(x2, o.engine_x86_64_avx2), f.avx2);
    let x4 = keep_if(or_else(x3, o.engine_x86_64_sse41_popcnt), f.sse41);
    let x5 = keep_if(or_else(x4, o.engine_x86_64_ssse3), f.ssse3);
    let x6 = keep_if(or_else(x5, o.engine_x86_64_sse3_popcnt), f.sse3 && f.popcnt);
    match x6 {
        Some(p) => p,
        None => o.engine,
    }
}

fn keep(x: Option<std::path::PathBuf>, ok: bool) -> (r: Option<std::path::PathBuf>)
    ensures
        r == keep_if(x, ok),
{
    if ok {
        x
    } else {
        None
    }
}

fn or(x: Option<std::path::PathBuf>, y: Option<std::path::PathBuf>) -> (r: Option<std::path::PathBuf>)
    ensures
        r == or_else(x, y),
{
    match x {
        Some(p) => Some(p),
        None => y,
    }
}

impl EngineOpts {
    /// The best executable that the processor can run.
    pub fn best(self, f: &CpuFeatures) -> (r: std::path::PathBuf)
        ensures
            r == best_spec(self, *f),
    {
        let x0 = keep(self.engine_x86_64_vnni512, f.avx512dq && f.avx512vl && f.avx512vnni);
        let x1 = keep(or(x0, self.engine_x86_64_avx512), f.avx512f && f.avx512bw);
        let x2 = keep(or(x1, self.engine_x86_64_bmi2), f.bmi2 && f.fast_pext);
        let x3 = keep(or(x2, self.engine_x86_64_avx2), f.avx2);
        let x4 = keep(or(x3, self.engine_x86_64_sse41_popcnt), f.sse41);
        let x5 = keep(or(x4, self.engine_x86_64_ssse3), f.ssse3);
        let x6 = keep(or(x5, self.engine_x86_64_sse3_popcnt), f.sse3 && f.popcnt);
        match x6 {
            Some(p) => p,
            None => self.engine,
        }
    }
}

/// The websocket scheme: `wss` behind TLS, else `ws`.
pub fn get_external_protocol(tls: bool) -> (r: String)
    ensures
        r@ == if tls {
            "wss"@
        } else {
            "ws"@
        },
{
    if tls {
        String::from_str("wss")
    } else {
        String::from_str("ws")
    }
}

/// The address at which clients reach the socket.
pub fn socket_url(tls: bool, host: &str) -> (r: String)
    ensures
        r@ == (if tls {
            "wss"@
        } else {
            "ws"@
        }) + "://"@ + host@ + "/socket"@,
{
    let mut s = get_external_protocol(tls);
    s.append("://");
    s.append(host);
    s.append("/socket");
    s
}

pub open spec fn min(a: int, b: int) -> int {
    if a <= b {
        a
    } else {
        b
    }
}

/// The largest power of two no larger than `n`, or 0 for 0.
pub open spec fn floor_pow2(n: nat) -> nat
    decreases n,
{
    if n < 2 {
        n
    } else {
        2 * floor_pow2(n / 2)
    }
}

fn floor_power_of_two(n: u64) -> (r: u64)
    ensures
        r == floor_pow2(n as nat),
    decreases n,
{
    if n < 2 {
        n
    } else {
        let h = floor_power_of_two(n / 2);
        proof {
            lemma_floor_pow2_le(n as nat / 2);
        }
        2 * h
    }
}

proof fn lemma_floor_pow2_le(n: nat)
    ensures
        floor_pow2(n) <= n,
    decreases n,
{
    if n >= 2 {
        lemma_floor_pow2_le(n / 2);
    }
}

/// The hash table size to offer, in MiB, given the free memory in KiB:
/// half of the largest power of two that fits.
pub fn hash_for_memory(available_kib: u64) -> (r: u64)
    ensures
        r == floor_pow2((available_kib / 1024) as nat) / 2,
{
    floor_power_of_two(available_kib / 1024) / 2
}

/// The thread count to offer: the engine's maximum, the user's cap and the
/// processor's parallelism, whichever is least.
pub fn derive_max_threads(reported: Option<usize>, cap: Option<u32>, parallelism: usize) -> (r: i64)
    ensures
        r == min(
            min(
                match cap {
                    Some(c) => c as int,
                    None => u32::MAX as int,
                },
                parallelism as int,
            ),
            match reported {
                Some(m) => m as int,
                None => u32::MAX as int,
            },
        ),
{
    let c: u64 = match cap {
        Some(c) => c as u64,
        None => u32::MAX as u64,
    };
    let a = if (parallelism as u64) < c {
        parallelism as u64
    } else {
        c
    };
    let m = match reported {
        Some(m) => if (m as u64) < a {
            m as u64
        } else {
            a
        },
        None => a,
    };
    m as i64
}

/// The hash table size to offer, in MiB: the engine's maximum, the user's
/// cap and what the free memory allows, whichever is least.
pub fn derive_max_hash(reported: Option<u64>, cap: Option<u32>, available_kib: u64) -> (r: i64)
    ensures
        r == min(
            min(
                match cap {
                    Some(c) => c as int,
                    None => u32::MAX as int,
                },
                (floor_pow2((available_kib / 1024) as nat) / 2) as int,
            ),
            match reported {
                Some(m) => m as int,
                None => u32::MAX as int,
            },
        ),
{
    let c: u64 = match cap {
        Some(c) => c as u64,
        None => u32::MAX as u64,
    };
    let h = hash_for_memory(available_kib);
    let a = if h < c {
        h
    } else {
        c
    };
    let m = match reported {
        Some(m) => if m < a {
            m
        } else {
            a
        },
        None => a,
    };
    m as i64
}

/// The secret read from a file, where it is long enough to be kept: at
/// least 8 characters.
pub fn secret_from_file(contents: String) -> (r: Option<Secret>)
    ensures
        match r {
            Some(s) => contents@.len() >= 8 && s@ == contents@,
            None => contents@.len() < 8,
        },
{
    let cs = chars_of(contents.as_str());
    if cs.len() >= 8 {
        Some(Secret(contents))
    } else {
        None
    }
}

} // verus!

verus! {

pub open spec fn hex_upper(d: nat) -> char {
    if d < 10 {
        (48 + d) as char
    } else {
        (55 + d) as char
    }
}

/// How `application/x-www-form-urlencoded` writes one byte: letters,
/// digits and `*-._` as they are, a space as `+`, anything else as `%`
/// and two upper-case hexadecimal digits.
pub open spec fn form_byte(b: u8) -> Seq<char> {
    if (48 <= b <= 57) || (65 <= b <= 90) || (97 <= b <= 122) || b == 42 || b == 45 || b == 46
        || b == 95 {
        seq![b as char]
    } else if b == 32 {
        seq!['+']
    } else {
        seq!['%', hex_upper((b / 16) as nat), hex_upper((b % 16) as nat)]
    }
}

pub open spec fn form_bytes(bs: Seq<u8>) -> Seq<char>
    decreases bs.len(),
{
    if bs.len() == 0 {
        Seq::empty()
    } else {
        form_byte(bs[0]) + form_bytes(bs.drop_first())
    }
}

/// A text as a form field: its UTF-8 bytes, each written as above.
pub open spec fn form_text(s: Seq<char>) -> Seq<char> {
    form_bytes(vstd::utf8::encode_utf8(s))
}

/// Name-value pairs as a form: `name=value`, joined by `&`.
pub open spec fn form_pairs(p: Seq<(Seq<char>, Seq<char>)>) -> Seq<char>
    decreases p.len(),
{
    if p.len() == 0 {
        Seq::empty()
    } else if p.len() == 1 {
        form_text(p[0].0) + "="@ + form_text(p[0].1)
    } else {
        form_pairs(p.drop_last()) + "&"@ + form_text(p.last().0) + "="@ + form_text(p.last().1)
    }
}

pub open spec fn string_pairs_view(v: Seq<(String, String)>) -> Seq<(Seq<char>, Seq<char>)> {
    v.map_values(|p: (String, String)| (p.0@, p.1@))
}

/// Relies on `serde_urlencoded::to_string`, which writes a sequence of
/// string pairs through `form_urlencoded`'s `append_pair`: each name and
/// value byte-serialized, `=` between them, `&` between pairs. For string
/// pairs its sequence, pair and value serializers never fail.
#[verifier::external_body]
fn urlencode_pairs(pairs: &Vec<(String, String)>) -> (r: Option<String>)
    ensures
        r is Some,
        r matches Some(s) ==> s@ == form_pairs(string_pairs_view(pairs@)),
{
    serde_urlencoded::to_string(pairs).ok()
}

/// What is registered with the analysis site.
#[derive(Debug, Clone)]
pub struct ExternalWorkerOpts {
    pub url: String,
    pub secret: Secret,
    pub name: String,
    pub max_threads: i64,
    pub max_hash: i64,
    pub variants: Vec<String>,
    pub official_stockfish: bool,
}

/// Texts joined by commas.
pub open spec fn comma_joined(v: Seq<Seq<char>>) -> Seq<char>
    decreases v.len(),
{
    if v.len() == 0 {
        Seq::empty()
    } else if v.len() == 1 {
        v[0]
    } else {
        comma_joined(v.drop_last()) + ","@ + v.last()
    }
}

/// The fields of the registration, with their names: the variants only
/// when there are some, and the promise of an official Stockfish only when
/// it is made.
pub open spec fn registration_pairs(o: ExternalWorkerOpts) -> Seq<(Seq<char>, Seq<char>)> {
    seq![
        ("url"@, o.url@),
        ("secret"@, o.secret@),
        ("name"@, o.name@),
        ("maxThreads"@, crate::number::signed_dec_text(o.max_threads as int)),
        ("maxHash"@, crate::number::signed_dec_text(o.max_hash as int)),
    ] + (if strings_view(o.variants@).len() > 0 {
        seq![("variants"@, comma_joined(strings_view(o.variants@)))]
    } else {
        Seq::empty()
    }) + (if o.official_stockfish {
        seq![("officialStockfish"@, "true"@)]
    } else {
        Seq::empty()
    })
}

fn signed_string(n: i64) -> (r: String)
    ensures
        r@ == crate::number::signed_dec_text(n as int),
{
    let mut s = String::new();
    crate::number::push_signed(&mut s, n);
    s
}

fn join_commas(v: &Vec<String>) -> (r: String)
    ensures
        r@ == comma_joined(strings_view(v@)),
{
    let mut s = String::new();
    let mut i: usize = 0;
    while i < v.len()
        invariant
            i <= v@.len(),
            s@ == comma_joined(strings_view(v@.subrange(0, i as int))),
        decreases v@.len() - i,
    {
        let ghost before = strings_view(v@.subrange(0, i as int));
        if i > 0 {
            s.append(",");
        }
        s.append(v[i].as_str());
        proof {
            let after = strings_view(v@.subrange(0, i + 1));
            assert(after.drop_last() =~= before);
            assert(after.last() == v@[i as int]@);
            if i == 0 {
                assert(before.len() == 0);
                assert(comma_joined(before) =~= Seq::<char>::empty());
                assert(s@ =~= comma_joined(after));
            }
        }
        i = i + 1;
    }
    assert(v@.subrange(0, v@.len() as int) =~= v@);
    s
}

impl ExternalWorkerOpts {
    /// The fields of the registration as name-value pairs.
    pub fn pairs(&self) -> (r: Vec<(String, String)>)
        ensures
            string_pairs_view(r@) == registration_pairs(*self),
    {
        let mut r: Vec<(String, String)> = Vec::new();
        r.push((String::from_str("url"), self.url.clone()));
        r.push((String::from_str("secret"), self.secret.0.clone()));
        r.push((String::from_str("name"), self.name.clone()));
        r.push((String::from_str("maxThreads"), signed_string(self.max_threads)));
        r.push((String::from_str("maxHash"), signed_string(self.max_hash)));
        if self.variants.len() > 0 {
            r.push((String::from_str("variants"), join_commas(&self.variants)));
        }
        if self.official_stockfish {
            r.push((String::from_str("officialStockfish"), String::from_str("true")));
        }
        assert(string_pairs_view(r@) =~= registration_pairs(*self));
        r
    }

    /// The address at which the user registers this engine with the
    /// analysis site.
    pub fn registration_url(&self) -> (r: String)
        ensures
            r@ == "https://lichess.org/analysis/external?"@ + form_pairs(registration_pairs(*self)),
    {
        let pairs = self.pairs();
        let q = urlencode_pairs(&pairs).unwrap();
        let mut u = String::from_str("https://lichess.org/analysis/external?");
        u.append(q.as_str());
        u
    }
}

} // verus!
