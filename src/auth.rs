use vstd::prelude::*;

use crate::id::hex_char;
use crate::text::{chars_of, concat_str, slice_chars, string_from_chars, wall_clock_nanos};

verus! {

/// Where and how a credential travels in a request.
#[derive(Debug, Clone)]
pub struct AuthConfig {
    pub enabled: bool,
    pub header_name: String,
    pub prefix: String,
}

impl AuthConfig {
    /// Enabled, header `Authorization`, prefix `Bearer `.
    pub fn new() -> (r: AuthConfig)
        ensures
            r.enabled,
            r.header_name@ == "Authorization"@,
            r.prefix@ == "Bearer "@,
    {
        AuthConfig {
            enabled: true,
            header_name: String::from_str("Authorization"),
            prefix: String::from_str("Bearer "),
        }
    }

    /// The default layout with checking switched off.
    pub fn disabled() -> (r: AuthConfig)
        ensures
            !r.enabled,
            r.header_name@ == "Authorization"@,
            r.prefix@ == "Bearer "@,
    {
        let mut c = AuthConfig::new();
        c.enabled = false;
        c
    }

    /// The default layout with another value prefix.
    pub fn with_prefix(prefix: &str) -> (r: AuthConfig)
        ensures
            r.enabled,
            r.header_name@ == "Authorization"@,
            r.prefix@ == prefix@,
    {
        let mut c = AuthConfig::new();
        c.prefix = String::from_str(prefix);
        c
    }
}

impl Default for AuthConfig {
    fn default() -> (r: AuthConfig)
        ensures
            r.enabled,
            r.header_name@ == "Authorization"@,
            r.prefix@ == "Bearer "@,
    {
        AuthConfig::new()
    }
}

/// The part of `h` after `p`, when `h` begins with `p`.
pub open spec fn strip_prefix(h: Seq<char>, p: Seq<char>) -> Option<Seq<char>> {
    if p.len() <= h.len() && h.subrange(0, p.len() as int) == p {
        Some(h.subrange(p.len() as int, h.len() as int))
    } else {
        None
    }
}

/// The accepted credentials and how requests carry them.
#[derive(Debug)]
pub struct ApiKeyStore {
    keys: Vec<String>,
    config: AuthConfig,
}

impl ApiKeyStore {
    pub closed spec fn keys_view(&self) -> Seq<Seq<char>> {
        self.keys@.map_values(|k: String| k@)
    }

    /// The accepted credentials.
    pub open spec fn view(&self) -> Set<Seq<char>> {
        self.keys_view().to_set()
    }

    pub closed spec fn enabled(&self) -> bool {
        self.config.enabled
    }

    pub closed spec fn prefix(&self) -> Seq<char> {
        self.config.prefix@
    }

    pub closed spec fn wf(&self) -> bool {
        self.keys_view().no_duplicates()
    }

    /// Whether a request to `path`, carrying `header` (the credential header's value, if
    /// present), is let through.
    pub open spec fn admits_spec(&self, path: Seq<char>, header: Option<Seq<char>>) -> bool {
        ||| !self.enabled()
        ||| path == "/health"@
        ||| (header is Some && strip_prefix(header->0, self.prefix()) is Some
            && self@.contains(strip_prefix(header->0, self.prefix())->0))
    }

    /// No credentials yet.
    pub fn new(config: AuthConfig) -> (r: ApiKeyStore)
        ensures
            r.wf(),
            r@ == Set::<Seq<char>>::empty(),
            r.enabled() == config.enabled,
            r.prefix() == config.prefix@,
    {
        let r = ApiKeyStore { keys: Vec::new(), config };
        assert(r.keys_view() =~= Seq::<Seq<char>>::empty());
        r
    }

    /// A store that lets every request through.
    pub fn disabled() -> (r: ApiKeyStore)
        ensures
            r.wf(),
            r@ == Set::<Seq<char>>::empty(),
            !r.enabled(),
    {
        ApiKeyStore::new(AuthConfig::disabled())
    }

    fn find(&self, key: &str) -> (r: Option<usize>)
        ensures
            r is Some ==> r->0 < self.keys_view().len() && self.keys_view()[r->0 as int] == key@,
            r is None ==> !self.keys_view().contains(key@),
    {
        let k = String::from_str(key);
        let mut i: usize = 0;
        while i < self.keys.len()
            invariant
                k@ == key@,
                forall|j: int| 0 <= j < i ==> self.keys_view()[j] != key@,
            decreases self.keys.len() - i,
        {
            if self.keys[i] == k {
                return Some(i);
            }
            i = i + 1;
        }
        None
    }

    /// Accepts `key` from now on.
    pub fn add_key(&mut self, key: &str)
        requires
            old(self).wf(),
        ensures
            final(self).wf(),
            final(self)@ == old(self)@.insert(key@),
            final(self).enabled() == old(self).enabled(),
            final(self).prefix() == old(self).prefix(),
    {
        match self.find(key) {
            Some(_) => {
                assert(old(self)@.insert(key@) =~= old(self)@);
            },
            None => {
                let ghost before = self.keys_view();
                self.keys.push(String::from_str(key));
                assert(self.keys_view() =~= before.push(key@));
                assert(self.keys_view()[before.len() as int] == key@);
                assert(self.keys_view().no_duplicates()) by {
                    let t = self.keys_view();
                    assert forall|a: int, b: int| 0 <= a < t.len() && 0 <= b < t.len() && a != b implies t[a] != t[b] by {
                        if a < before.len() && b < before.len() {
                            assert(t[a] == before[a] && t[b] == before[b]);
                        } else if a < before.len() {
                            assert(t[a] == before[a]);
                        } else if b < before.len() {
                            assert(t[b] == before[b]);
                        }
                    }
                }
                assert(self@ =~= old(self)@.insert(key@)) by {
                    assert forall|x: Seq<char>| self@.contains(x) <==> old(self)@.insert(key@).contains(x) by {
                        if self@.contains(x) {
                            let j = choose|j: int| 0 <= j < self.keys_view().len() && self.keys_view()[j] == x;
                            if j < before.len() {
                                assert(before[j] == x);
                            } else {
                                assert(x == key@);
                            }
                        }
                        if before.contains(x) {
                            let j = choose|j: int| 0 <= j < before.len() && before[j] == x;
                            assert(self.keys_view()[j] == x);
                        }
                        if x == key@ {
                            assert(self.keys_view().contains(key@));
                        }
                    }
                }
            },
        }
    }

    /// Stops accepting `key`; true when it had been accepted.
    pub fn remove_key(&mut self, key: &str) -> (r: bool)
        requires
            old(self).wf(),
        ensures
            final(self).wf(),
            final(self)@ == old(self)@.remove(key@),
            r == old(self)@.contains(key@),
            final(self).enabled() == old(self).enabled(),
            final(self).prefix() == old(self).prefix(),
    {
        match self.find(key) {
            Some(i) => {
                let ghost before = self.keys_view();
                self.keys.remove(i);
                proof {
                    assert(self.keys_view() =~= before.remove(i as int));
                    assert(self.keys_view().no_duplicates()) by {
                        let t = self.keys_view();
                        assert forall|a: int, b: int| 0 <= a < t.len() && 0 <= b < t.len() && a != b implies t[a] != t[b] by {
                            let oa = if a < i { a } else { a + 1 };
                            let ob = if b < i { b } else { b + 1 };
                            assert(t[a] == before[oa] && t[b] == before[ob]);
                        }
                    }
                    assert(self@ =~= old(self)@.remove(key@)) by {
                        assert forall|x: Seq<char>| self@.contains(x) <==> old(self)@.remove(key@).contains(x) by {
                            if self@.contains(x) {
                                let j = choose|j: int| 0 <= j < self.keys_view().len() && self.keys_view()[j] == x;
                                let oj = if j < i { j } else { j + 1 };
                                assert(before[oj] == x);
                                assert(oj != i);
                            }
                            if old(self)@.contains(x) && x != key@ {
                                let j = choose|j: int| 0 <= j < before.len() && before[j] == x;
                                assert(j != i);
                                let nj = if j < i { j } else { j - 1 };
                                assert(self.keys_view()[nj] == x);
                            }
                        }
                    }
                    assert(before[i as int] == key@);
                }
                true
            },
            None => {
                assert(old(self)@.remove(key@) =~= old(self)@);
                false
            },
        }
    }

    /// Whether `key` is accepted.
    pub fn is_valid(&self, key: &str) -> (r: bool)
        ensures
            r == self@.contains(key@),
    {
        match self.find(key) {
            Some(_) => true,
            None => false,
        }
    }

    /// How many credentials are accepted.
    pub fn count(&self) -> (r: usize)
        requires
            self.wf(),
        ensures
            r as nat == self@.len(),
    {
        proof {
            self.keys_view().unique_seq_to_set();
        }
        self.keys.len()
    }

    pub fn is_enabled(&self) -> (r: bool)
        ensures
            r == self.enabled(),
    {
        self.config.enabled
    }

    /// The credential in a header value: what follows the exact prefix.
    pub fn extract_key(&self, header_value: &str) -> (r: Option<String>)
        ensures
            r is Some <==> strip_prefix(header_value@, self.prefix()) is Some,
            r is Some ==> r->0@ == strip_prefix(header_value@, self.prefix())->0,
    {
        let h = chars_of(header_value);
        let p = chars_of(self.config.prefix.as_str());
        if p.len() > h.len() {
            return None;
        }
        let mut i: usize = 0;
        while i < p.len()
            invariant
                p.len() <= h.len(),
                h@ == header_value@,
                p@ == self.prefix(),
                i <= p.len(),
                forall|j: int| 0 <= j < i ==> h@[j] == p@[j],
            decreases p.len() - i,
        {
            if h[i] != p[i] {
                assert(h@.subrange(0, p.len() as int)[i as int] != p@[i as int]);
                assert(h@ == header_value@ && p@ == self.prefix());
                assert(h@.subrange(0, p.len() as int) != p@);
                return None;
            }
            i = i + 1;
        }
        assert(h@.subrange(0, p.len() as int) =~= p@);
        Some(string_from_chars(slice_chars(&h, p.len(), h.len())))
    }

    /// The admission decision for one request: disabled stores and the health path let
    /// everything through; otherwise the header must hold the prefix and an accepted key.
    pub fn admits(&self, path: &str, header: Option<&str>) -> (r: bool)
        ensures
            r == self.admits_spec(path@, match header {
                Some(h) => Some(h@),
                None => None,
            }),
    {
        if !self.config.enabled {
            return true;
        }
        let health = String::from_str("/health");
        let p = String::from_str(path);
        if p == health {
            return true;
        }
        match header {
            Some(h) => match self.extract_key(h) {
                Some(k) => self.is_valid(k.as_str()),
                None => false,
            },
            None => false,
        }
    }
}

impl Default for ApiKeyStore {
    fn default() -> (r: ApiKeyStore)
        ensures
            r.wf(),
            r@ == Set::<Seq<char>>::empty(),
            r.enabled(),
            r.prefix() == "Bearer "@,
    {
        ApiKeyStore::new(AuthConfig::new())
    }
}

/// The lowercase hexadecimal form of `v`, without leading zeros.
pub open spec fn hex_form(v: nat) -> Seq<char>
    decreases v,
{
    if v < 16 {
        seq![hex_char(v as u64)]
    } else {
        hex_form(v / 16).push(hex_char((v % 16) as u64))
    }
}

/// The sixteen hexadecimal digits of `v`, most significant first.
pub open spec fn hex16(v: u64) -> Seq<char> {
    Seq::new(16, |i: int| hex_char((v >> ((60 - 4 * i) as u64)) & 15))
}

fn hex_digit(d: u64) -> (c: char)
    requires
        d < 16,
    ensures
        c == hex_char(d),
{
    if d < 10 {
        ((48 + d) as u8) as char
    } else {
        ((97 + d - 10) as u8) as char
    }
}

fn hex_form_chars(v: u64) -> (r: Vec<char>)
    ensures
        r@ == hex_form(v as nat),
    decreases v,
{
    let c = hex_digit(v % 16);
    if v < 16 {
        let mut r: Vec<char> = Vec::new();
        r.push(c);
        assert(r@ =~= seq![hex_char(v)]);
        r
    } else {
        let mut r = hex_form_chars(v / 16);
        r.push(c);
        r
    }
}

fn hex16_chars(v: u64) -> (r: Vec<char>)
    ensures
        r@ == hex16(v),
{
    let mut r: Vec<char> = Vec::new();
    let mut i: u64 = 0;
    while i < 16
        invariant
            i <= 16,
            r@.len() == i,
            forall|k: int| 0 <= k < i ==> r@[k] == hex16(v)[k],
        decreases 16 - i,
    {
        let sh: u64 = 60 - 4 * i;
        let d: u64 = (v >> sh) & 15;
        assert(d < 16) by (bit_vector)
            requires
                d == (v >> sh) & 15,
        ;
        r.push(hex_digit(d));
        i = i + 1;
    }
    assert(r@ =~= hex16(v));
    r
}

/// The pseudorandom part of a generated key, from the timestamp.
pub open spec fn key_mix(t: u64) -> u64 {
    t.wrapping_mul(0x5DEECE66D).wrapping_add(0xB)
}

/// The text of a generated key for timestamp `t`.
pub open spec fn key_text(t: u64) -> Seq<char> {
    "st_"@ + hex_form(t as nat) + "_"@ + hex16(key_mix(t))
}

/// The credential `st_<t in hex>_<pseudorandom part, 16 hex digits>` for timestamp `t`.
pub fn api_key_at(t: u64) -> (r: String)
    ensures
        r@ == key_text(t),
{
    let mix = t.wrapping_mul(0x5DEECE66D).wrapping_add(0xB);
    let a = concat_str("st_", string_from_chars(hex_form_chars(t)).as_str());
    let b = concat_str(a.as_str(), "_");
    concat_str(b.as_str(), string_from_chars(hex16_chars(mix)).as_str())
}

/// A fresh credential for first-start bootstrapping: `api_key_at` of the wall clock in
/// nanoseconds.
pub fn generate_api_key() -> (r: String)
    ensures
        exists|t: u64| r@ == key_text(t),
{
    api_key_at(wall_clock_nanos())
}

/// Admission with checking on, the `Bearer ` prefix, and key `k` accepted: `Bearer k`
/// is let through, `Bearer x` for a key not accepted and a missing header are turned
/// away, and the health path is let through whatever is sent. With checking off,
/// everything is let through.
pub proof fn lemma_admission(store: &ApiKeyStore, k: Seq<char>, x: Seq<char>, path: Seq<char>, header: Option<Seq<char>>)
    requires
        store.prefix() == "Bearer "@,
    ensures
        !store.enabled() ==> store.admits_spec(path, header),
        store.admits_spec("/health"@, header),
        store.enabled() && path != "/health"@ ==> !store.admits_spec(path, None),
        store.enabled() && path != "/health"@ && store@.contains(k) ==> store.admits_spec(path, Some("Bearer "@ + k)),
        store.enabled() && path != "/health"@ && !store@.contains(x) ==> !store.admits_spec(path, Some("Bearer "@ + x)),
{
    let p = "Bearer "@;
    assert((p + k).subrange(0, p.len() as int) =~= p);
    assert((p + k).subrange(p.len() as int, (p + k).len() as int) =~= k);
    assert((p + x).subrange(0, p.len() as int) =~= p);
    assert((p + x).subrange(p.len() as int, (p + x).len() as int) =~= x);
}

} // verus!
