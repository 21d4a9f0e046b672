use vstd::prelude::*;

verus! {

/// The shared secret that a client must present.
#[derive(Clone, Debug)]
pub struct Secret(pub String);

impl View for Secret {
    type V = Seq<char>;

    open spec fn view(&self) -> Seq<char> {
        self.0@
    }
}

proof fn lemma_bytes_determine_chars(a: Seq<char>, b: Seq<char>)
    requires
        vstd::utf8::encode_utf8(a) == vstd::utf8::encode_utf8(b),
    ensures
        a == b,
{
    vstd::utf8::encode_utf8_decode_utf8(a);
    vstd::utf8::encode_utf8_decode_utf8(b);
}

/// Compares two secrets. The lengths are compared openly; the bytes are all
/// visited, whatever they hold, so that the time taken does not tell where
/// they first differ.
pub fn constant_time_eq(a: &str, b: &str) -> (r: bool)
    ensures
        r == (a@ == b@),
{
    let x = a.as_bytes();
    let y = b.as_bytes();
    if x.len() != y.len() {
        return false;
    }
    let mut acc: u8 = 0;
    let mut i: usize = 0;
    while i < x.len()
        invariant
            x@ == vstd::utf8::encode_utf8(a@),
            y@ == vstd::utf8::encode_utf8(b@),
            x@.len() == y@.len(),
            i <= x@.len(),
            (acc == 0) == (forall|j: int| 0 <= j < i ==> x@[j] == y@[j]),
        decreases x@.len() - i,
    {
        let l = x[i];
        let r = y[i];
        let next = acc | (l ^ r);
        assert(next == 0 <==> (acc == 0 && l == r)) by (bit_vector)
            requires
                next == acc | (l ^ r),
        ;
        acc = next;
        i = i + 1;
    }
    if acc == 0 {
        assert(x@ =~= y@);
        proof {
            lemma_bytes_determine_chars(a@, b@);
        }
        true
    } else {
        false
    }
}

impl PartialEq for Secret {
    fn eq(&self, other: &Secret) -> (r: bool)
        ensures
            r == (self@ == other@),
    {
        constant_time_eq(self.0.as_str(), other.0.as_str())
    }
}

impl vstd::std_specs::cmp::PartialEqSpecImpl for Secret {
    open spec fn obeys_eq_spec() -> bool {
        true
    }

    open spec fn eq_spec(&self, other: &Secret) -> bool {
        self@ == other@
    }
}

impl Eq for Secret {

}

pub open spec fn hex_digit(d: nat) -> char {
    if d < 10 {
        (48 + d) as char
    } else {
        (87 + d) as char
    }
}

/// The lowest `n` hexadecimal digits of `v`, most significant first.
pub open spec fn hex_text(v: nat, n: nat) -> Seq<char>
    decreases n,
{
    if n == 0 {
        Seq::empty()
    } else {
        hex_text(v / 16, (n - 1) as nat).push(hex_digit(v % 16))
    }
}

fn push_hex(s: &mut String, v: u128, n: usize)
    ensures
        final(s)@ == old(s)@ + hex_text(v as nat, n as nat),
    decreases n,
{
    if n > 0 {
        push_hex(s, v / 16, n - 1);
        let d = (v % 16) as u8;
        let c = if d < 10 {
            (48u8 + d) as char
        } else {
            (87u8 + d) as char
        };
        s.push(c);
        assert(final(s)@ =~= old(s)@ + hex_text(v as nat, n as nat));
    } else {
        assert(final(s)@ =~= old(s)@ + hex_text(v as nat, n as nat));
    }
}

impl Secret {
    /// A secret of 32 lower-case hexadecimal digits, spelling out `bits`.
    pub fn from_bits(bits: u128) -> (r: Secret)
        ensures
            r@ == hex_text(bits as nat, 32),
    {
        let mut s = String::new();
        push_hex(&mut s, bits, 32);
        assert(s@ =~= hex_text(bits as nat, 32));
        Secret(s)
    }
}

} // verus!
