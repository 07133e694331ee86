//! The entry-point dispatcher: the fixed list of backend names, the symbol
//! each one initializes through, and the plan of calls to make against a
//! library that exposes only some of those symbols.

use vstd::pervasive::unreached;
use vstd::prelude::*;

use crate::text::{find_line_with_prefix, first_line_with_prefix, split_on, split_str, str_eq};

verus! {

/// The closed set of backend names, in declared order.
pub open spec fn spec_backend_names() -> Seq<Seq<char>> {
    seq![
        "AArch64"@,
        "AMDGPU"@,
        "ARM"@,
        "BPF"@,
        "Hexagon"@,
        "Lanai"@,
        "Mips"@,
        "MSP430"@,
        "NVPTX"@,
        "PowerPC"@,
        "Sparc"@,
        "SystemZ"@,
        "X86"@,
        "XCore"@,
    ]
}

/// The known backend names, in the fixed declared order.
pub fn backend_names() -> (r: Vec<String>)
    ensures
        r.deep_view() == spec_backend_names(),
{
    let mut r: Vec<String> = Vec::new();
    r.push("AArch64".to_owned());
    r.push("AMDGPU".to_owned());
    r.push("ARM".to_owned());
    r.push("BPF".to_owned());
    r.push("Hexagon".to_owned());
    r.push("Lanai".to_owned());
    r.push("Mips".to_owned());
    r.push("MSP430".to_owned());
    r.push("NVPTX".to_owned());
    r.push("PowerPC".to_owned());
    r.push("Sparc".to_owned());
    r.push("SystemZ".to_owned());
    r.push("X86".to_owned());
    r.push("XCore".to_owned());
    proof {
        assert(r.deep_view() =~= spec_backend_names());
    }
    r
}

// ---------------------------------------------------------------------------
// Symbol names
// ---------------------------------------------------------------------------

/// The initialization entry point for one backend.
pub open spec fn symbol_for(backend: Seq<char>) -> Seq<char> {
    "LLVMInitialize"@ + backend + "Target"@
}

/// Builds the initialization symbol name for one backend.
pub fn symbol_name(backend: &str) -> (r: String)
    ensures
        r@ == symbol_for(backend@),
{
    let mut r = "LLVMInitialize".to_owned();
    r.append(backend);
    r.append("Target");
    r
}

/// The symbol of every backend, in the same order as the names.
pub open spec fn symbols_of(names: Seq<Seq<char>>) -> Seq<Seq<char>> {
    names.map_values(|b: Seq<char>| symbol_for(b))
}

/// The fourteen initialization symbol names, in declared backend order.
pub fn initialization_symbols() -> (r: Vec<String>)
    ensures
        r.deep_view() == symbols_of(spec_backend_names()),
        r.deep_view().len() == spec_backend_names().len(),
{
    let names = backend_names();
    let ghost nv = names.deep_view();
    let mut r: Vec<String> = Vec::new();
    proof {
        assert(r.deep_view() =~= symbols_of(nv.take(0)));
    }
    let mut i: usize = 0;
    while i < names.len()
        invariant
            i <= names@.len(),
            names.deep_view() == nv,
            r.deep_view() == symbols_of(nv.take(i as int)),
        decreases names@.len() - i,
    {
        let ghost rd = r.deep_view();
        let s = symbol_name(names[i].as_str());
        r.push(s);
        proof {
            assert(r.deep_view() =~= rd.push(s@));
            assert(symbols_of(nv.take(i + 1)) =~= symbols_of(nv.take(i as int)).push(
                symbol_for(nv[i as int]),
            ));
        }
        i += 1;
    }
    proof {
        assert(nv.take(names@.len() as int) =~= nv);
    }
    r
}

// ---------------------------------------------------------------------------
// Planning the calls
// ---------------------------------------------------------------------------

/// The symbols to invoke, walking the declared list in order and keeping
/// exactly those the library turned out to expose.
pub open spec fn spec_dispatch_plan(names: Seq<Seq<char>>, available: Seq<bool>) -> Seq<Seq<char>>
    decreases names.len(),
{
    if names.len() == 0 || available.len() == 0 {
        Seq::empty()
    } else {
        (if available[0] {
            seq![names[0]]
        } else {
            Seq::empty()
        }) + spec_dispatch_plan(names.drop_first(), available.drop_first())
    }
}

/// The positions flagged `true`, in increasing order.
pub open spec fn selected_indices(available: Seq<bool>) -> Seq<int>
    decreases available.len(),
{
    if available.len() == 0 {
        Seq::empty()
    } else {
        let rest = selected_indices(available.drop_first()).map_values(|x: int| x + 1);
        if available[0] {
            seq![0int] + rest
        } else {
            rest
        }
    }
}

/// Law: dispatch invokes exactly the available entry points, in declared
/// order — the plan reads off the flagged positions left to right, every
/// flagged symbol is planned, and nothing else is.
pub proof fn lemma_dispatch_plan_exact(names: Seq<Seq<char>>, available: Seq<bool>)
    requires
        names.len() == available.len(),
    ensures
        spec_dispatch_plan(names, available).len() == selected_indices(available).len(),
        forall|j: int| 0 <= j < selected_indices(available).len() ==> {
            &&& 0 <= #[trigger] selected_indices(available)[j] < names.len()
            &&& available[selected_indices(available)[j]]
            &&& spec_dispatch_plan(names, available)[j] == names[selected_indices(available)[j]]
        },
        forall|j1: int, j2: int| 0 <= j1 < j2 < selected_indices(available).len()
            ==> #[trigger] selected_indices(available)[j1] < #[trigger] selected_indices(
            available,
        )[j2],
        forall|i: int| 0 <= i < available.len() && available[i] ==> selected_indices(
            available,
        ).contains(i),
    decreases names.len(),
{
    if names.len() == 0 {
    } else {
        lemma_dispatch_plan_exact(names.drop_first(), available.drop_first());
        let plan = spec_dispatch_plan(names, available);
        let si = selected_indices(available);
        let tail_plan = spec_dispatch_plan(names.drop_first(), available.drop_first());
        let tail_si = selected_indices(available.drop_first());
        let rest = tail_si.map_values(|x: int| x + 1);
        let off: int = if available[0] {
            1
        } else {
            0
        };
        assert(si.len() == off + tail_si.len());
        assert(plan.len() == off + tail_plan.len());
        assert forall|j: int| 0 <= j < si.len() implies {
            &&& 0 <= #[trigger] si[j] < names.len()
            &&& available[si[j]]
            &&& plan[j] == names[si[j]]
        } by {
            if available[0] && j == 0 {
                assert(si[0] == 0);
                assert(plan[0] == names[0]);
            } else {
                let jt = j - off;
                assert(si[j] == rest[jt]);
                assert(rest[jt] == tail_si[jt] + 1);
                assert(plan[j] == tail_plan[jt]);
                assert(names.drop_first()[tail_si[jt]] == names[tail_si[jt] + 1]);
                assert(available.drop_first()[tail_si[jt]] == available[tail_si[jt] + 1]);
            }
        }
        assert forall|j1: int, j2: int| 0 <= j1 < j2 < si.len() implies #[trigger] si[j1]
            < #[trigger] si[j2] by {
            if available[0] && j1 == 0 {
                assert(si[j2] == tail_si[j2 - 1] + 1);
            } else {
                assert(si[j1] == tail_si[j1 - off] + 1);
                assert(si[j2] == tail_si[j2 - off] + 1);
            }
        }
        assert forall|i: int| 0 <= i < available.len() && available[i] implies si.contains(i) by {
            if i == 0 {
                assert(si[0] == 0int);
            } else {
                assert(available.drop_first()[i - 1] == available[i]);
                assert(tail_si.contains(i - 1));
                let jt = choose|jt: int| 0 <= jt < tail_si.len() && tail_si[jt] == i - 1;
                assert(rest[jt] == i);
                assert(si[off + jt] == rest[jt]);
            }
        }
    }
}

/// Keeps, in order, the symbols the library exposes: `available[k]` says
/// whether `symbols[k]` resolved. This is the whole decision the dispatcher
/// makes; the caller then invokes the planned symbols one by one.
pub fn dispatch_plan(symbols: &Vec<String>, available: &Vec<bool>) -> (r: Vec<String>)
    requires
        symbols@.len() == available@.len(),
    ensures
        r.deep_view() == spec_dispatch_plan(symbols.deep_view(), available@),
{
    let ghost sv = symbols.deep_view();
    let ghost av = available@;
    let mut r: Vec<String> = Vec::new();
    proof {
        assert(sv.skip(0) =~= sv);
        assert(av.skip(0) =~= av);
        assert(r.deep_view() + spec_dispatch_plan(sv, av) =~= spec_dispatch_plan(sv, av));
    }
    let mut i: usize = 0;
    while i < symbols.len()
        invariant
            i <= symbols@.len(),
            symbols@.len() == available@.len(),
            symbols.deep_view() == sv,
            available@ == av,
            spec_dispatch_plan(sv, av) == r.deep_view() + spec_dispatch_plan(
                sv.skip(i as int),
                av.skip(i as int),
            ),
        decreases symbols@.len() - i,
    {
        proof {
            let sk = sv.skip(i as int);
            let ak = av.skip(i as int);
            assert(sk[0] == sv[i as int]);
            assert(ak[0] == av[i as int]);
            assert(sk.drop_first() =~= sv.skip(i + 1));
            assert(ak.drop_first() =~= av.skip(i + 1));
        }
        if available[i] {
            let ghost rd = r.deep_view();
            r.push(symbols[i].clone());
            proof {
                assert(r.deep_view() =~= rd.push(sv[i as int]));
                assert(rd + spec_dispatch_plan(sv.skip(i as int), av.skip(i as int))
                    =~= r.deep_view() + spec_dispatch_plan(sv.skip(i + 1), av.skip(i + 1)));
            }
        } else {
            proof {
                assert(r.deep_view() + spec_dispatch_plan(sv.skip(i as int), av.skip(i as int))
                    =~= r.deep_view() + spec_dispatch_plan(sv.skip(i + 1), av.skip(i + 1)));
            }
        }
        i += 1;
    }
    proof {
        assert(sv.skip(symbols@.len() as int) =~= Seq::<Seq<char>>::empty());
        assert(r.deep_view() + spec_dispatch_plan(
            sv.skip(symbols@.len() as int),
            av.skip(symbols@.len() as int),
        ) =~= r.deep_view());
    }
    r
}

// ---------------------------------------------------------------------------
// The superseded single-backend variant
// ---------------------------------------------------------------------------
// A narrower alternative to initializing every backend: read the machine's
// architecture out of the compiler's configuration report and initialize
// that one backend only. It fails hard outside its domain — a report with no
// quoted `target_arch` value, or an architecture the mapping does not know,
// aborts rather than falling back — so each function's `requires` admits
// only the inputs it is defined on.

/// The machine architecture named by a compiler configuration report: the
/// value quoted on the first `target_arch` line, when such a line exists and
/// carries a quote.
pub open spec fn native_arch_of_report(report: Seq<char>) -> Option<Seq<char>> {
    match first_line_with_prefix(split_on(report, '\n'), "target_arch"@) {
        Some(line) => {
            let q = split_on(line, '"');
            if q.len() >= 2 {
                Some(q[1])
            } else {
                None
            }
        },
        None => None,
    }
}

/// Reads the machine architecture out of a compiler configuration report.
/// A report that quotes no architecture is outside this function's domain.
pub fn get_native_arch(report: &str) -> (r: String)
    requires
        native_arch_of_report(report@) is Some,
    ensures
        Some(r@) == native_arch_of_report(report@),
{
    let lines = split_str(report, '\n');
    match find_line_with_prefix(&lines, "target_arch") {
        Some(line) => {
            let q = split_str(line.as_str(), '"');
            if q.len() >= 2 {
                q[1].clone()
            } else {
                proof {
                    assert(false);
                }
                unreached()
            }
        },
        None => {
            proof {
                assert(false);
            }
            unreached()
        },
    }
}

/// The backend that matches a machine architecture, for the architectures
/// this mapping knows.
pub open spec fn spec_arch2backend(arch: Seq<char>) -> Option<Seq<char>> {
    if arch == "x86_64"@ {
        Some("X86"@)
    } else {
        None
    }
}

/// Maps a machine architecture to its backend name. An architecture the
/// mapping does not know is outside this function's domain.
pub fn arch2backend(arch: &str) -> (r: String)
    requires
        spec_arch2backend(arch@) is Some,
    ensures
        Some(r@) == spec_arch2backend(arch@),
{
    if str_eq(arch, "x86_64") {
        "X86".to_owned()
    } else {
        proof {
            assert(false);
        }
        unreached()
    }
}

/// The report names an architecture and the mapping knows it: the domain of
/// the single-backend variant.
pub open spec fn spec_native_backend(report: Seq<char>) -> Option<Seq<char>> {
    match native_arch_of_report(report) {
        Some(a) => spec_arch2backend(a),
        None => None,
    }
}

/// The single backend to initialize on this machine, read from a compiler
/// configuration report. A report with no known architecture is outside
/// this function's domain.
pub fn get_native_backend(report: &str) -> (r: String)
    requires
        spec_native_backend(report@) is Some,
    ensures
        Some(r@) == spec_native_backend(report@),
{
    let arch = get_native_arch(report);
    arch2backend(arch.as_str())
}

} // verus!
