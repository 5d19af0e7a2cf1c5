//! Cipher suite enumeration: each known suite is offered alone, and the report
//! says whether the server took it and how strong it is.

use crate::scanner::handshake;
use crate::text;
use vstd::prelude::*;

verus! {

/// What offering one suite showed.
#[derive(Debug)]
pub struct CipherResult {
    pub suite: String,
    pub accepted: bool,
    pub strength: String,
}

/// What a [`CipherResult`] holds.
pub struct CipherView {
    pub suite: Seq<char>,
    pub accepted: bool,
    pub strength: Seq<char>,
}

impl View for CipherResult {
    type V = CipherView;

    open spec fn view(&self) -> CipherView {
        CipherView { suite: self.suite@, accepted: self.accepted, strength: self.strength@ }
    }
}

/// What a list of cipher results holds.
pub open spec fn cipher_views(v: Seq<CipherResult>) -> Seq<CipherView> {
    Seq::new(v.len(), |i: int| v[i]@)
}

/// The codes of the suites that are probed, in order. The first three belong to
/// TLS 1.3 and fail on an endpoint that speaks TLS 1.2 alone, the others the
/// other way round: accepted or rejected is what is recorded.
pub const PROBE_SUITES: [u16; 6] = [0x1302, 0x1301, 0x1303, 0xc030, 0xc02f, 0xcca8];

/// How strong a suite is, by its name.
pub open spec fn strength_of(name: Seq<char>) -> Seq<char> {
    if text::holds(name, "CHACHA20"@) || text::holds(name, "AES_256"@) {
        "Strong"@
    } else if text::holds(name, "AES_128"@) {
        "Adequate"@
    } else {
        "Weak"@
    }
}

/// How strong a suite with the given name is.
pub fn classify_name(name: &str) -> (r: String)
    ensures
        r@ == strength_of(name@),
{
    if text::contains(name, "CHACHA20") || text::contains(name, "AES_256") {
        "Strong".to_string()
    } else if text::contains(name, "AES_128") {
        "Adequate".to_string()
    } else {
        "Weak".to_string()
    }
}

/// How strong the suite with the given code is.
pub fn classify(suite: u16) -> (r: String)
    ensures
        r@ == strength_of(handshake::suite_name(suite)),
{
    let name = handshake::cipher_text(suite);
    classify_name(name.as_str())
}

/// The result for one suite.
pub open spec fn row_for(suite: u16, accepted: bool) -> CipherView {
    CipherView {
        suite: handshake::suite_name(suite),
        accepted,
        strength: strength_of(handshake::suite_name(suite)),
    }
}

/// The results for the probed suites in order, without the probes that did not
/// run to an end.
pub open spec fn rows_for(outcomes: Seq<Option<bool>>) -> Seq<CipherView>
    decreases outcomes.len(),
{
    if outcomes.len() == 0 {
        seq![]
    } else {
        let before = rows_for(outcomes.drop_last());
        match outcomes.last() {
            Some(accepted) => before.push(
                row_for(PROBE_SUITES@[outcomes.len() - 1], accepted),
            ),
            None => before,
        }
    }
}

/// Report on the probed suites, from what each probe found: whether the server
/// accepted the suite, or nothing where the probe did not run to an end.
pub fn enumerate(outcomes: &[Option<bool>; 6]) -> (r: Vec<CipherResult>)
    ensures
        cipher_views(r@) == rows_for(outcomes@),
        forall|i: int|
            0 <= i < r@.len() ==> (#[trigger] r@[i]).strength@ == strength_of(r@[i].suite@),
{
    let suites: [u16; 6] = PROBE_SUITES;
    let mut results: Vec<CipherResult> = Vec::new();
    let mut i: usize = 0;
    proof {
        assert(outcomes@.take(0) =~= Seq::<Option<bool>>::empty());
        assert(cipher_views(results@) =~= rows_for(outcomes@.take(0)));
    }
    while i < 6
        invariant
            0 <= i <= 6,
            outcomes@.len() == 6,
            suites@ == PROBE_SUITES@,
            cipher_views(results@) == rows_for(outcomes@.take(i as int)),
            forall|j: int|
                0 <= j < results@.len() ==> (#[trigger] results@[j]).strength@ == strength_of(
                    results@[j].suite@,
                ),
        decreases 6 - i,
    {
        let ghost before = cipher_views(results@);
        proof {
            let t = outcomes@.take(i + 1);
            assert(t.drop_last() =~= outcomes@.take(i as int));
            assert(t.last() == outcomes@[i as int]);
        }
        match outcomes[i] {
            Some(accepted) => {
                let suite = handshake::cipher_text(suites[i]);
                let strength = classify(suites[i]);
                let row = CipherResult { suite, accepted, strength };
                let ghost shown = row@;
                results.push(row);
                proof {
                    assert(cipher_views(results@) =~= before.push(shown));
                }
            },
            None => {},
        }
        i += 1;
    }
    proof {
        assert(outcomes@.take(6) =~= outcomes@);
    }
    results
}

/// No probed suite is weak.
pub proof fn law_probed_suites_are_not_weak(i: int)
    requires
        0 <= i < PROBE_SUITES@.len(),
    ensures
        strength_of(handshake::suite_name(PROBE_SUITES@[i])) == "Strong"@ || strength_of(
            handshake::suite_name(PROBE_SUITES@[i]),
        ) == "Adequate"@,
{
    let name = handshake::suite_name(PROBE_SUITES@[i]);
    reveal_strlit("CHACHA20");
    reveal_strlit("AES_256");
    reveal_strlit("AES_128");
    reveal_strlit("TLS13_AES_256_GCM_SHA384");
    reveal_strlit("TLS13_AES_128_GCM_SHA256");
    reveal_strlit("TLS13_CHACHA20_POLY1305_SHA256");
    reveal_strlit("TLS_ECDHE_RSA_WITH_AES_256_GCM_SHA384");
    reveal_strlit("TLS_ECDHE_RSA_WITH_AES_128_GCM_SHA256");
    reveal_strlit("TLS_ECDHE_RSA_WITH_CHACHA20_POLY1305_SHA256");
    let at: int = if i < 3 {
        6
    } else {
        19
    };
    let needle = if i == 0 || i == 3 {
        "AES_256"@
    } else if i == 1 || i == 4 {
        "AES_128"@
    } else {
        "CHACHA20"@
    };
    assert(name.subrange(at, at + needle.len() as int) =~= needle);
    assert(text::occurs_at(name, needle, at));
}

/// Every completed probe has its row: where all ran to an end, the rows are the
/// probed suites in order, each accepted as the probe found.
pub proof fn law_every_probe_is_reported(outcomes: Seq<Option<bool>>)
    requires
        outcomes.len() <= PROBE_SUITES@.len(),
        forall|i: int| 0 <= i < outcomes.len() ==> (#[trigger] outcomes[i]) is Some,
    ensures
        rows_for(outcomes).len() == outcomes.len(),
        forall|i: int|
            0 <= i < outcomes.len() ==> #[trigger] rows_for(outcomes)[i] == row_for(
                PROBE_SUITES@[i],
                outcomes[i]->0,
            ),
    decreases outcomes.len(),
{
    if outcomes.len() > 0 {
        let fewer = outcomes.drop_last();
        assert forall|i: int| 0 <= i < fewer.len() implies (#[trigger] fewer[i]) is Some by {
            assert(fewer[i] == outcomes[i]);
        }
        law_every_probe_is_reported(fewer);
        assert(outcomes[outcomes.len() - 1] is Some);
        assert forall|i: int| 0 <= i < outcomes.len() implies #[trigger] rows_for(outcomes)[i]
            == row_for(PROBE_SUITES@[i], outcomes[i]->0) by {
            if i < fewer.len() {
                assert(rows_for(fewer)[i] == rows_for(outcomes)[i]);
                assert(fewer[i] == outcomes[i]);
            }
        }
    }
}

/// A suite with ChaCha20 or AES-256 in its name is strong, whatever stands around.
pub proof fn law_strong_names(a: Seq<char>, b: Seq<char>)
    ensures
        strength_of(a + "CHACHA20"@ + b) == "Strong"@,
        strength_of(a + "AES_256"@ + b) == "Strong"@,
{
    text::lemma_holds(a, "CHACHA20"@, b);
    text::lemma_holds(a, "AES_256"@, b);
}

/// A suite with AES-128 in its name and neither of the strong ciphers is adequate,
/// and one with none of the three is weak.
pub proof fn law_other_names(name: Seq<char>)
    requires
        !exists|a: Seq<char>, b: Seq<char>| name == #[trigger] (a + "CHACHA20"@ + b),
        !exists|a: Seq<char>, b: Seq<char>| name == #[trigger] (a + "AES_256"@ + b),
    ensures
        (exists|a: Seq<char>, b: Seq<char>| name == #[trigger] (a + "AES_128"@ + b))
            ==> strength_of(name) == "Adequate"@,
        (!exists|a: Seq<char>, b: Seq<char>| name == #[trigger] (a + "AES_128"@ + b))
            ==> strength_of(name) == "Weak"@,
{
    text::law_holds(name, "CHACHA20"@);
    text::law_holds(name, "AES_256"@);
    text::law_holds(name, "AES_128"@);
}

/// The probed suites are, in order, three of TLS 1.3 and three of TLS 1.2 with the
/// same ciphers: AES-256, AES-128 and ChaCha20. They are strong, but for those with
/// AES-128, which are adequate.
pub proof fn law_strengths_of_probed_suites(i: int)
    requires
        0 <= i < 6,
    ensures
        PROBE_SUITES@.len() == 6,
        handshake::suite_name(PROBE_SUITES@[i]) == seq![
            "TLS13_AES_256_GCM_SHA384"@,
            "TLS13_AES_128_GCM_SHA256"@,
            "TLS13_CHACHA20_POLY1305_SHA256"@,
            "TLS_ECDHE_RSA_WITH_AES_256_GCM_SHA384"@,
            "TLS_ECDHE_RSA_WITH_AES_128_GCM_SHA256"@,
            "TLS_ECDHE_RSA_WITH_CHACHA20_POLY1305_SHA256"@,
        ][i],
        strength_of(handshake::suite_name(PROBE_SUITES@[i])) == seq![
            "Strong"@,
            "Adequate"@,
            "Strong"@,
            "Strong"@,
            "Adequate"@,
            "Strong"@,
        ][i],
{
    let name = handshake::suite_name(PROBE_SUITES@[i]);
    reveal_strlit("CHACHA20");
    reveal_strlit("AES_256");
    reveal_strlit("AES_128");
    reveal_strlit("TLS13_AES_256_GCM_SHA384");
    reveal_strlit("TLS13_AES_128_GCM_SHA256");
    reveal_strlit("TLS13_CHACHA20_POLY1305_SHA256");
    reveal_strlit("TLS_ECDHE_RSA_WITH_AES_256_GCM_SHA384");
    reveal_strlit("TLS_ECDHE_RSA_WITH_AES_128_GCM_SHA256");
    reveal_strlit("TLS_ECDHE_RSA_WITH_CHACHA20_POLY1305_SHA256");
    let at: int = if i < 3 {
        6
    } else {
        19
    };
    if i == 0 || i == 3 {
        assert(name.subrange(at, at + 7) =~= "AES_256"@);
        assert(text::occurs_at(name, "AES_256"@, at));
    } else if i == 2 || i == 5 {
        assert(name.subrange(at, at + 8) =~= "CHACHA20"@);
        assert(text::occurs_at(name, "CHACHA20"@, at));
    } else {
        assert(name.subrange(at, at + 7) =~= "AES_128"@);
        assert(text::occurs_at(name, "AES_128"@, at));
        assert forall|j: int| !text::occurs_at(name, "CHACHA20"@, j) by {
            if text::occurs_at(name, "CHACHA20"@, j) {
                let part = name.subrange(j, j + 8);
                assert(part[1] == 'H');
                assert(name[j + 1] == 'H');
                assert(part[0] == name[j]);
                assert(part[2] == name[j + 2]);
            }
        }
        assert forall|j: int| !text::occurs_at(name, "AES_256"@, j) by {
            if text::occurs_at(name, "AES_256"@, j) {
                let part = name.subrange(j, j + 7);
                assert(part[0] == name[j]);
                assert(part[1] == name[j + 1]);
                assert(part[4] == name[j + 4]);
            }
        }
    }
}

/// A probe's row is the suite's name, what the probe found and the strength of that
/// name. A probe that did not run to an end has no row, and moves no other.
pub proof fn law_one_more_probe(outcomes: Seq<Option<bool>>, accepted: bool)
    requires
        outcomes.len() < 6,
    ensures
        rows_for(outcomes.push(None)) == rows_for(outcomes),
        rows_for(outcomes.push(Some(accepted))) == rows_for(outcomes).push(
            CipherView {
                suite: handshake::suite_name(PROBE_SUITES@[outcomes.len() as int]),
                accepted,
                strength: strength_of(handshake::suite_name(PROBE_SUITES@[outcomes.len() as int])),
            },
        ),
{
    assert(outcomes.push(None).drop_last() =~= outcomes);
    assert(outcomes.push(Some(accepted)).drop_last() =~= outcomes);
}

/// A name is classified by its cipher alone: strong with ChaCha20 or AES-256 in it, else
/// adequate with AES-128 in it, else weak. The key exchange has no say.
pub proof fn law_names_are_classified(name: &str, r: String)
    requires
        call_ensures(classify_name, (name,), r),
    ensures
        ({
            let strong = (exists|a: Seq<char>, b: Seq<char>|
                name@ == #[trigger] (a + "CHACHA20"@ + b)) || (exists|a: Seq<char>, b: Seq<char>|
                name@ == #[trigger] (a + "AES_256"@ + b));
            let adequate = exists|a: Seq<char>, b: Seq<char>|
                name@ == #[trigger] (a + "AES_128"@ + b);
            &&& strong ==> r@ == "Strong"@
            &&& !strong && adequate ==> r@ == "Adequate"@
            &&& !strong && !adequate ==> r@ == "Weak"@
        }),
{
    text::law_holds(name@, "CHACHA20"@);
    text::law_holds(name@, "AES_256"@);
    text::law_holds(name@, "AES_128"@);
}

} // verus!
