use vstd::prelude::*;
use vstd::string::StringSliceAdditionalSpecFns;

verus! {

/// The bytes of the lower-case form of a string.
pub uninterp spec fn lower_of(s: Seq<u8>) -> Seq<u8>;

/// Relies on std's `str::to_lowercase`: the result depends on the string
/// alone, and an empty string stays empty.
#[verifier::external_body]
pub(crate) fn lowercase_bytes(s: &str) -> (r: Vec<u8>)
    ensures
        r@ == lower_of(s.spec_bytes()),
        s.spec_bytes().len() == 0 ==> r@.len() == 0,
{
    s.to_lowercase().into_bytes()
}

/// Whether `n` occurs in `h` as a contiguous run.
pub open spec fn has_sub(h: Seq<u8>, n: Seq<u8>) -> bool {
    exists|i: int| 0 <= i && i + n.len() <= h.len() && #[trigger] h.subrange(i, i + n.len()) == n
}

/// Whether `h` starts with `n`.
pub open spec fn has_prefix(h: Seq<u8>, n: Seq<u8>) -> bool {
    n.len() <= h.len() && h.subrange(0, n.len() as int) == n
}

/// Whether two byte strings are equal.
pub fn same_bytes(a: &[u8], b: &[u8]) -> (r: bool)
    ensures
        r == (a@ == b@),
{
    if a.len() != b.len() {
        return false;
    }
    let mut i: usize = 0;
    while i < a.len()
        invariant
            0 <= i <= a@.len(),
            a@.len() == b@.len(),
            forall|j: int| 0 <= j < i ==> a@[j] == b@[j],
        decreases a@.len() - i,
    {
        if a[i] != b[i] {
            return false;
        }
        i = i + 1;
    }
    assert(a@ =~= b@);
    true
}

fn starts_with(h: &[u8], n: &[u8]) -> (r: bool)
    ensures
        r == has_prefix(h@, n@),
{
    if n.len() > h.len() {
        return false;
    }
    let mut i: usize = 0;
    while i < n.len()
        invariant
            0 <= i <= n@.len(),
            n@.len() <= h@.len(),
            forall|j: int| 0 <= j < i ==> h@[j] == n@[j],
        decreases n@.len() - i,
    {
        if h[i] != n[i] {
            assert(h@.subrange(0, n@.len() as int)[i as int] != n@[i as int]);
            return false;
        }
        i = i + 1;
    }
    assert(h@.subrange(0, n@.len() as int) =~= n@);
    true
}

fn contains(h: &[u8], n: &[u8]) -> (r: bool)
    ensures
        r == has_sub(h@, n@),
{
    if n.len() > h.len() {
        return false;
    }
    let hl = h.len();
    let mut i: usize = 0;
    while i <= h.len() - n.len()
        invariant
            0 <= i <= h@.len() - n@.len() + 1,
            n@.len() <= h@.len(),
            hl == h@.len(),
            forall|k: int| 0 <= k < i ==> #[trigger] h@.subrange(k, k + n@.len()) != n@,
        decreases h@.len() - n@.len() + 1 - i,
    {
        let mut j: usize = 0;
        let mut ok = true;
        while j < n.len()
            invariant
                0 <= j <= n@.len(),
                i + n@.len() <= h@.len(),
                hl == h@.len(),
                ok == forall|t: int| 0 <= t < j ==> h@[i + t] == n@[t],
            decreases n@.len() - j,
        {
            if h[i + j] != n[j] {
                ok = false;
            }
            j = j + 1;
        }
        if ok {
            assert(h@.subrange(i as int, i + n@.len()) =~= n@);
            return true;
        }
        proof {
            let t = choose|t: int| 0 <= t < n@.len() && h@[i + t] != n@[t];
            assert(h@.subrange(i as int, i + n@.len())[t] != n@[t]);
        }
        i = i + 1;
    }
    proof {
        assert forall|k: int| 0 <= k && k + n@.len() <= h@.len() implies #[trigger] h@.subrange(k, k + n@.len()) != n@ by {
            assert(k < i);
        }
    }
    false
}

/// Kinds of network interface.
#[derive(Debug, Clone, Copy, PartialEq, Eq, Structural)]
pub enum InterfaceType {
    WiFi,
    Ethernet,
    Cellular,
    Loopback,
    Other,
}

impl InterfaceType {
    /// Lower-case identifier of the kind.
    pub fn as_str(&self) -> (r: &'static str)
        ensures
            r@ == match *self {
                InterfaceType::WiFi => "wifi"@,
                InterfaceType::Ethernet => "ethernet"@,
                InterfaceType::Cellular => "cellular"@,
                InterfaceType::Loopback => "loopback"@,
                InterfaceType::Other => "other"@,
            },
    {
        match self {
            InterfaceType::WiFi => "wifi",
            InterfaceType::Ethernet => "ethernet",
            InterfaceType::Cellular => "cellular",
            InterfaceType::Loopback => "loopback",
            InterfaceType::Other => "other",
        }
    }

    /// Human-readable name of the kind.
    pub fn display_name(&self) -> (r: &'static str)
        ensures
            r@ == match *self {
                InterfaceType::WiFi => "WiFi"@,
                InterfaceType::Ethernet => "Ethernet"@,
                InterfaceType::Cellular => "Cellular"@,
                InterfaceType::Loopback => "Loopback"@,
                InterfaceType::Other => "Other"@,
            },
    {
        match self {
            InterfaceType::WiFi => "WiFi",
            InterfaceType::Ethernet => "Ethernet",
            InterfaceType::Cellular => "Cellular",
            InterfaceType::Loopback => "Loopback",
            InterfaceType::Other => "Other",
        }
    }
}

/// A network interface as shown in diagnostics.
#[derive(Debug, Clone)]
pub struct NetworkInterface {
    pub name: String,
    pub if_type: InterfaceType,
    pub ip: String,
    pub active: bool,
}

/// The kind of an interface, from the lower-case bytes of its name: loopback
/// names first ("lo", "lo0", "loopback"), then wireless ("wi-fi", "wifi",
/// "wlan", "wireless", prefixes "wlp" and "wl"), wired ("ethernet", "eth",
/// prefixes "enp" and "en") and cellular (prefixes "rmnet" and "ccmni",
/// "mobile", "cellular") patterns; bytes are written as ASCII codes.
pub open spec fn classify_spec(l: Seq<u8>) -> InterfaceType {
    if l == seq![108u8, 111u8] || l == seq![108u8, 111u8, 48u8]
        || has_sub(l, seq![108u8, 111u8, 111u8, 112u8, 98u8, 97u8, 99u8, 107u8]) {
        InterfaceType::Loopback
    } else if has_sub(l, seq![119u8, 105u8, 45u8, 102u8, 105u8]) || has_sub(l, seq![119u8, 105u8, 102u8, 105u8])
        || has_sub(l, seq![119u8, 108u8, 97u8, 110u8])
        || has_sub(l, seq![119u8, 105u8, 114u8, 101u8, 108u8, 101u8, 115u8, 115u8])
        || has_prefix(l, seq![119u8, 108u8, 112u8]) || has_prefix(l, seq![119u8, 108u8]) {
        InterfaceType::WiFi
    } else if has_sub(l, seq![101u8, 116u8, 104u8, 101u8, 114u8, 110u8, 101u8, 116u8])
        || has_sub(l, seq![101u8, 116u8, 104u8]) || has_prefix(l, seq![101u8, 110u8, 112u8])
        || has_prefix(l, seq![101u8, 110u8]) {
        InterfaceType::Ethernet
    } else if has_prefix(l, seq![114u8, 109u8, 110u8, 101u8, 116u8]) || has_prefix(l, seq![99u8, 99u8, 109u8, 110u8, 105u8])
        || has_sub(l, seq![109u8, 111u8, 98u8, 105u8, 108u8, 101u8])
        || has_sub(l, seq![99u8, 101u8, 108u8, 108u8, 117u8, 108u8, 97u8, 114u8]) {
        InterfaceType::Cellular
    } else {
        InterfaceType::Other
    }
}

/// Classifies an interface by the lower-case bytes of its name.
pub fn classify_lowered(l: &[u8]) -> (r: InterfaceType)
    ensures
        r == classify_spec(l@),
{
    let lo: [u8; 2] = [108u8, 111u8];
    let lo0: [u8; 3] = [108u8, 111u8, 48u8];
    let loopback: [u8; 8] = [108u8, 111u8, 111u8, 112u8, 98u8, 97u8, 99u8, 107u8];
    assert(lo@ =~= seq![108u8, 111u8]);
    assert(lo0@ =~= seq![108u8, 111u8, 48u8]);
    assert(loopback@ =~= seq![108u8, 111u8, 111u8, 112u8, 98u8, 97u8, 99u8, 107u8]);
    if same_bytes(l, &lo) || same_bytes(l, &lo0) || contains(l, &loopback) {
        return InterfaceType::Loopback;
    }
    let wi_fi: [u8; 5] = [119u8, 105u8, 45u8, 102u8, 105u8];
    let wifi: [u8; 4] = [119u8, 105u8, 102u8, 105u8];
    let wlan: [u8; 4] = [119u8, 108u8, 97u8, 110u8];
    let wireless: [u8; 8] = [119u8, 105u8, 114u8, 101u8, 108u8, 101u8, 115u8, 115u8];
    let wlp: [u8; 3] = [119u8, 108u8, 112u8];
    let wl: [u8; 2] = [119u8, 108u8];
    assert(wi_fi@ =~= seq![119u8, 105u8, 45u8, 102u8, 105u8]);
    assert(wifi@ =~= seq![119u8, 105u8, 102u8, 105u8]);
    assert(wlan@ =~= seq![119u8, 108u8, 97u8, 110u8]);
    assert(wireless@ =~= seq![119u8, 105u8, 114u8, 101u8, 108u8, 101u8, 115u8, 115u8]);
    assert(wlp@ =~= seq![119u8, 108u8, 112u8]);
    assert(wl@ =~= seq![119u8, 108u8]);
    if contains(l, &wi_fi) || contains(l, &wifi) || contains(l, &wlan) || contains(l, &wireless)
        || starts_with(l, &wlp) || starts_with(l, &wl) {
        return InterfaceType::WiFi;
    }
    let ethernet: [u8; 8] = [101u8, 116u8, 104u8, 101u8, 114u8, 110u8, 101u8, 116u8];
    let eth: [u8; 3] = [101u8, 116u8, 104u8];
    let enp: [u8; 3] = [101u8, 110u8, 112u8];
    let en: [u8; 2] = [101u8, 110u8];
    assert(ethernet@ =~= seq![101u8, 116u8, 104u8, 101u8, 114u8, 110u8, 101u8, 116u8]);
    assert(eth@ =~= seq![101u8, 116u8, 104u8]);
    assert(enp@ =~= seq![101u8, 110u8, 112u8]);
    assert(en@ =~= seq![101u8, 110u8]);
    if contains(l, &ethernet) || contains(l, &eth) || starts_with(l, &enp) || starts_with(l, &en) {
        return InterfaceType::Ethernet;
    }
    let rmnet: [u8; 5] = [114u8, 109u8, 110u8, 101u8, 116u8];
    let ccmni: [u8; 5] = [99u8, 99u8, 109u8, 110u8, 105u8];
    let mobile: [u8; 6] = [109u8, 111u8, 98u8, 105u8, 108u8, 101u8];
    let cellular: [u8; 8] = [99u8, 101u8, 108u8, 108u8, 117u8, 108u8, 97u8, 114u8];
    assert(rmnet@ =~= seq![114u8, 109u8, 110u8, 101u8, 116u8]);
    assert(ccmni@ =~= seq![99u8, 99u8, 109u8, 110u8, 105u8]);
    assert(mobile@ =~= seq![109u8, 111u8, 98u8, 105u8, 108u8, 101u8]);
    assert(cellular@ =~= seq![99u8, 101u8, 108u8, 108u8, 117u8, 108u8, 97u8, 114u8]);
    if starts_with(l, &rmnet) || starts_with(l, &ccmni) || contains(l, &mobile) || contains(l, &cellular) {
        return InterfaceType::Cellular;
    }
    InterfaceType::Other
}

/// Classifies an interface by its name, compared in lower case.
pub fn classify_interface(name: &str) -> (r: InterfaceType)
    ensures
        r == classify_spec(lower_of(name.spec_bytes())),
{
    let lower = lowercase_bytes(name);
    classify_lowered(lower.as_slice())
}

} // verus!
