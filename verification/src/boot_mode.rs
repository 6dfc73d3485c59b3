//! The boot mode that U-Boot's arguments select.
use vstd::prelude::*;
use vstd::string::StringExecFns;

verus! {

pub const MAX_ARGS: usize = 16;
pub const MAX_ARG_LEN: usize = 64;

#[derive(Debug, Clone, Copy, PartialEq, Eq, Structural)]
pub struct TakeoverRequest {
    pub fault_test: FaultTest,
    pub switch_page_tables: bool,
}

#[derive(Debug, Default, Clone, Copy, PartialEq, Eq, Structural)]
pub enum FaultTest {
    #[default]
    NoFault,
    Sync,
    Guard,
    Unmapped,
}

#[derive(Debug, Clone, Copy, PartialEq, Eq, Structural)]
pub enum BootModeError {
    InvalidArgCount,
    NullArgv,
    NullArgument,
    UnterminatedArgument,
    DuplicateMode,
    UnknownMode,
    DuplicateFault,
    UnknownFault,
    FaultWithoutTakeover,
    DuplicateMmu,
    UnknownMmu,
    MmuWithoutTakeover,
    TranslationFaultWithoutMmuSwitch,
}

/// `s` begins with `p`.
pub open spec fn has_prefix(s: Seq<u8>, p: Seq<u8>) -> bool {
    p.len() <= s.len() && s.subrange(0, p.len() as int) == p
}

/// `s` after the prefix `p`.
pub open spec fn after_prefix(s: Seq<u8>, p: Seq<u8>) -> Seq<u8> {
    s.subrange(p.len() as int, s.len() as int)
}

/// The ASCII bytes of `mode=`.
pub open spec fn mode_key() -> Seq<u8> {
    seq![0x6du8, 0x6fu8, 0x64u8, 0x65u8, 0x3du8]
}

/// The ASCII bytes of `fault=`.
pub open spec fn fault_key() -> Seq<u8> {
    seq![0x66u8, 0x61u8, 0x75u8, 0x6cu8, 0x74u8, 0x3du8]
}

/// The ASCII bytes of `mmu=`.
pub open spec fn mmu_key() -> Seq<u8> {
    seq![0x6du8, 0x6du8, 0x75u8, 0x3du8]
}

/// The takeover flag that a `mode=` value names: `diagnostic` or `takeover`.
pub open spec fn mode_value(v: Seq<u8>) -> Option<bool> {
    if v == seq![0x64u8, 0x69u8, 0x61u8, 0x67u8, 0x6eu8, 0x6fu8, 0x73u8, 0x74u8, 0x69u8, 0x63u8] {
        Some(false)
    } else if v == seq![0x74u8, 0x61u8, 0x6bu8, 0x65u8, 0x6fu8, 0x76u8, 0x65u8, 0x72u8] {
        Some(true)
    } else {
        None
    }
}

/// The fault test that a `fault=` value names: `none`, `sync`, `guard` or
/// `unmapped`.
pub open spec fn fault_value(v: Seq<u8>) -> Option<FaultTest> {
    if v == seq![0x6eu8, 0x6fu8, 0x6eu8, 0x65u8] {
        Some(FaultTest::NoFault)
    } else if v == seq![0x73u8, 0x79u8, 0x6eu8, 0x63u8] {
        Some(FaultTest::Sync)
    } else if v == seq![0x67u8, 0x75u8, 0x61u8, 0x72u8, 0x64u8] {
        Some(FaultTest::Guard)
    } else if v == seq![0x75u8, 0x6eu8, 0x6du8, 0x61u8, 0x70u8, 0x70u8, 0x65u8, 0x64u8] {
        Some(FaultTest::Unmapped)
    } else {
        None
    }
}

/// The page-table switch flag that an `mmu=` value names: `inherit` or
/// `switch`.
pub open spec fn mmu_value(v: Seq<u8>) -> Option<bool> {
    if v == seq![0x69u8, 0x6eu8, 0x68u8, 0x65u8, 0x72u8, 0x69u8, 0x74u8] {
        Some(false)
    } else if v == seq![0x73u8, 0x77u8, 0x69u8, 0x74u8, 0x63u8, 0x68u8] {
        Some(true)
    } else {
        None
    }
}

/// The settings collected so far: `mode=`, `fault=` and `mmu=`.
pub type ModeSettings = (Option<bool>, Option<FaultTest>, Option<bool>);

/// Adds one argument to the collected settings. Arguments without a known
/// key are ignored; a repeated key or an unknown value is an error.
pub open spec fn mode_step(s: ModeSettings, arg: Seq<u8>) -> Result<ModeSettings, BootModeError> {
    let (takeover, fault, mmu) = s;
    let takeover2 = if has_prefix(arg, mode_key()) {
        if takeover is Some {
            Err(BootModeError::DuplicateMode)
        } else {
            match mode_value(after_prefix(arg, mode_key())) {
                Some(t) => Ok(Some(t)),
                None => Err(BootModeError::UnknownMode),
            }
        }
    } else {
        Ok(takeover)
    };
    match takeover2 {
        Err(e) => Err(e),
        Ok(takeover) => {
            let fault2 = if has_prefix(arg, fault_key()) {
                if fault is Some {
                    Err(BootModeError::DuplicateFault)
                } else {
                    match fault_value(after_prefix(arg, fault_key())) {
                        Some(f) => Ok(Some(f)),
                        None => Err(BootModeError::UnknownFault),
                    }
                }
            } else {
                Ok(fault)
            };
            match fault2 {
                Err(e) => Err(e),
                Ok(fault) => if has_prefix(arg, mmu_key()) {
                    if mmu is Some {
                        Err(BootModeError::DuplicateMmu)
                    } else {
                        match mmu_value(after_prefix(arg, mmu_key())) {
                            Some(m) => Ok((takeover, fault, Some(m))),
                            None => Err(BootModeError::UnknownMmu),
                        }
                    }
                } else {
                    Ok((takeover, fault, mmu))
                },
            }
        },
    }
}

/// The settings after adding `args[i..]` to `s`, in order.
pub open spec fn mode_fold(args: Seq<Seq<u8>>, i: int, s: ModeSettings) -> Result<
    ModeSettings,
    BootModeError,
>
    decreases args.len() - i,
{
    if i >= args.len() || i < 0 {
        Ok(s)
    } else {
        match mode_step(s, args[i]) {
            Err(e) => Err(e),
            Ok(s2) => mode_fold(args, i + 1, s2),
        }
    }
}

/// The request that complete settings describe: diagnostic mode returns to
/// U-Boot, takeover never does; fault tests and MMU switching need
/// takeover, and translation-fault tests need the switched tables.
pub open spec fn mode_request(s: ModeSettings) -> Result<Option<TakeoverRequest>, BootModeError> {
    let takeover = match s.0 {
        Some(t) => t,
        None => false,
    };
    let fault = match s.1 {
        Some(f) => f,
        None => FaultTest::NoFault,
    };
    let switch = match s.2 {
        Some(m) => m,
        None => false,
    };
    if !takeover {
        if fault != FaultTest::NoFault {
            Err(BootModeError::FaultWithoutTakeover)
        } else if switch {
            Err(BootModeError::MmuWithoutTakeover)
        } else {
            Ok(None)
        }
    } else if (fault == FaultTest::Guard || fault == FaultTest::Unmapped) && !switch {
        Err(BootModeError::TranslationFaultWithoutMmuSwitch)
    } else {
        Ok(Some(TakeoverRequest { fault_test: fault, switch_page_tables: switch }))
    }
}

/// What a whole argument list parses to.
pub open spec fn parsed_mode(args: Seq<Seq<u8>>) -> Result<Option<TakeoverRequest>, BootModeError> {
    match mode_fold(args, 0, (None, None, None)) {
        Err(e) => Err(e),
        Ok(s) => mode_request(s),
    }
}

/// The ASCII bytes of `mode=diagnostic`.
pub open spec fn diagnostic_argument() -> Seq<u8> {
    seq![0x6du8, 0x6fu8, 0x64u8, 0x65u8, 0x3du8, 0x64u8, 0x69u8, 0x61u8, 0x67u8, 0x6eu8, 0x6fu8, 0x73u8, 0x74u8, 0x69u8, 0x63u8]
}

/// The ASCII bytes of `mode=takeover`.
pub open spec fn takeover_argument() -> Seq<u8> {
    seq![0x6du8, 0x6fu8, 0x64u8, 0x65u8, 0x3du8, 0x74u8, 0x61u8, 0x6bu8, 0x65u8, 0x6fu8, 0x76u8, 0x65u8, 0x72u8]
}

/// Folding in one more argument at the end is one more step.
proof fn lemma_fold_push(args: Seq<Seq<u8>>, i: int, s: ModeSettings, x: Seq<u8>)
    requires
        0 <= i <= args.len(),
    ensures
        mode_fold(args.push(x), i, s) == (match mode_fold(args, i, s) {
            Err(e) => Err(e),
            Ok(s2) => mode_step(s2, x),
        }),
    decreases args.len() - i,
{
    if i < args.len() {
        assert(args.push(x)[i] == args[i]);
        match mode_step(s, args[i]) {
            Err(_) => {},
            Ok(s2) => lemma_fold_push(args, i + 1, s2, x),
        }
    } else {
        assert(args.push(x)[i] == x);
        assert(mode_fold(args.push(x), i + 1, s) == Ok::<ModeSettings, BootModeError>(s));
        match mode_step(s, x) {
            Err(_) => {},
            Ok(s2) => {
                assert(mode_fold(args.push(x), i + 1, s2) == Ok::<ModeSettings, BootModeError>(s2));
            },
        }
    }
}

/// Arguments without the `mode=` key leave the mode setting as it was.
proof fn lemma_fold_keeps_mode(args: Seq<Seq<u8>>, i: int, s: ModeSettings)
    requires
        0 <= i,
        forall|j: int| 0 <= j < args.len() ==> !has_prefix(#[trigger] args[j], mode_key()),
    ensures
        mode_fold(args, i, s) matches Ok(s2) ==> s2.0 == s.0,
    decreases args.len() - i,
{
    if i < args.len() {
        assert(!has_prefix(args[i], mode_key()));
        match mode_step(s, args[i]) {
            Err(_) => {},
            Ok(s2) => lemma_fold_keeps_mode(args, i + 1, s2),
        }
    }
}

/// An argument that sets the mode to takeover is `mode=takeover`.
proof fn lemma_takeover_step(s: ModeSettings, arg: Seq<u8>)
    requires
        s.0 != Some(true),
        mode_step(s, arg) matches Ok(s2) && s2.0 == Some(true),
    ensures
        arg == takeover_argument(),
{
    assert(has_prefix(arg, mode_key()));
    let rest = after_prefix(arg, mode_key());
    assert(mode_value(rest) == Some(true));
    assert(rest == seq![0x74u8, 0x61u8, 0x6bu8, 0x65u8, 0x6fu8, 0x76u8, 0x65u8, 0x72u8]);
    assert(arg =~= arg.subrange(0, 5) + rest);
    assert(arg =~= takeover_argument());
}

proof fn lemma_fold_takeover(args: Seq<Seq<u8>>, i: int, s: ModeSettings)
    requires
        0 <= i,
    ensures
        mode_fold(args, i, s) matches Ok(s2) && s2.0 == Some(true) ==> s.0 == Some(true) || exists|j: int|
            i <= j < args.len() && #[trigger] args[j] == takeover_argument(),
    decreases args.len() - i,
{
    if i < args.len() {
        match mode_step(s, args[i]) {
            Err(_) => {},
            Ok(s2) => {
                lemma_fold_takeover(args, i + 1, s2);
                if mode_fold(args, i, s) matches Ok(s3) && s3.0 == Some(true) && s.0 != Some(true) {
                    if s2.0 == Some(true) {
                        lemma_takeover_step(s, args[i]);
                    }
                }
            },
        }
    }
}

/// Takeover, which never returns to U-Boot, is requested only by an
/// argument that is exactly `mode=takeover`: without one, in particular
/// with `mode=diagnostic`, the arguments parse to an error or to no
/// takeover.
pub proof fn lemma_takeover_only_when_asked(args: Seq<Seq<u8>>)
    ensures
        (parsed_mode(args) matches Ok(Some(_))) ==> exists|j: int|
            0 <= j < args.len() && #[trigger] args[j] == takeover_argument(),
{
    lemma_fold_takeover(args, 0, (None, None, None));
}

/// Diagnostic mode is the default: adding `mode=diagnostic` to arguments
/// that name no mode parses to the same result as leaving it out.
pub proof fn lemma_diagnostic_is_default(args: Seq<Seq<u8>>)
    requires
        forall|j: int| 0 <= j < args.len() ==> !has_prefix(#[trigger] args[j], mode_key()),
    ensures
        parsed_mode(args.push(diagnostic_argument())) == parsed_mode(args),
{
    let d = diagnostic_argument();
    let init: ModeSettings = (None, None, None);
    lemma_fold_push(args, 0, init, d);
    lemma_fold_keeps_mode(args, 0, init);
    assert(has_prefix(d, mode_key())) by {
        assert(d.subrange(0, 5) =~= mode_key());
    }
    assert(after_prefix(d, mode_key()) =~= seq![0x64u8, 0x69u8, 0x61u8, 0x67u8, 0x6eu8, 0x6fu8, 0x73u8, 0x74u8, 0x69u8, 0x63u8]);
    assert(!has_prefix(d, fault_key())) by {
        assert(d.subrange(0, 6)[0] != fault_key()[0]);
    }
    assert(!has_prefix(d, mmu_key())) by {
        assert(d.subrange(0, 4)[1] != mmu_key()[1]);
    }
}

/// The argument that selects fault test `f`: `fault=none`, `fault=sync`,
/// `fault=guard` or `fault=unmapped`.
pub open spec fn fault_argument(f: FaultTest) -> Seq<u8> {
    seq![0x66u8, 0x61u8, 0x75u8, 0x6cu8, 0x74u8, 0x3du8] + match f {
        FaultTest::NoFault => seq![0x6eu8, 0x6fu8, 0x6eu8, 0x65u8],
        FaultTest::Sync => seq![0x73u8, 0x79u8, 0x6eu8, 0x63u8],
        FaultTest::Guard => seq![0x67u8, 0x75u8, 0x61u8, 0x72u8, 0x64u8],
        FaultTest::Unmapped => seq![0x75u8, 0x6eu8, 0x6du8, 0x61u8, 0x70u8, 0x70u8, 0x65u8, 0x64u8],
    }
}

/// The ASCII bytes of `mmu=switch`.
pub open spec fn switch_argument() -> Seq<u8> {
    seq![0x6du8, 0x6du8, 0x75u8, 0x3du8, 0x73u8, 0x77u8, 0x69u8, 0x74u8, 0x63u8, 0x68u8]
}

proof fn lemma_fault_step(s: ModeSettings, arg: Seq<u8>, f: FaultTest)
    requires
        s.1 != Some(f),
        mode_step(s, arg) matches Ok(s2) && s2.1 == Some(f),
    ensures
        arg == fault_argument(f),
{
    assert(has_prefix(arg, fault_key()));
    let rest = after_prefix(arg, fault_key());
    assert(fault_value(rest) == Some(f));
    assert(arg =~= arg.subrange(0, 6) + rest);
    assert(arg =~= fault_argument(f));
}

proof fn lemma_switch_step(s: ModeSettings, arg: Seq<u8>)
    requires
        s.2 != Some(true),
        mode_step(s, arg) matches Ok(s2) && s2.2 == Some(true),
    ensures
        arg == switch_argument(),
{
    assert(has_prefix(arg, mmu_key()));
    let rest = after_prefix(arg, mmu_key());
    assert(mmu_value(rest) == Some(true));
    assert(arg =~= arg.subrange(0, 4) + rest);
    assert(arg =~= switch_argument());
}

proof fn lemma_fold_fault(args: Seq<Seq<u8>>, i: int, s: ModeSettings, f: FaultTest)
    requires
        0 <= i,
    ensures
        mode_fold(args, i, s) matches Ok(s2) && s2.1 == Some(f) ==> s.1 == Some(f) || exists|j: int|
            i <= j < args.len() && #[trigger] args[j] == fault_argument(f),
    decreases args.len() - i,
{
    if i < args.len() {
        match mode_step(s, args[i]) {
            Err(_) => {},
            Ok(s2) => {
                lemma_fold_fault(args, i + 1, s2, f);
                if s2.1 == Some(f) && s.1 != Some(f) {
                    lemma_fault_step(s, args[i], f);
                }
            },
        }
    }
}

proof fn lemma_fold_switch(args: Seq<Seq<u8>>, i: int, s: ModeSettings)
    requires
        0 <= i,
    ensures
        mode_fold(args, i, s) matches Ok(s2) && s2.2 == Some(true) ==> s.2 == Some(true) || exists|j: int|
            i <= j < args.len() && #[trigger] args[j] == switch_argument(),
    decreases args.len() - i,
{
    if i < args.len() {
        match mode_step(s, args[i]) {
            Err(_) => {},
            Ok(s2) => {
                lemma_fold_switch(args, i + 1, s2);
                if s2.2 == Some(true) && s.2 != Some(true) {
                    lemma_switch_step(s, args[i]);
                }
            },
        }
    }
}

/// A takeover request's fault test and page-table switch come from the
/// arguments that name them: a fault test other than none needs its
/// `fault=` argument, and switching the page tables needs `mmu=switch`.
pub proof fn lemma_request_from_arguments(args: Seq<Seq<u8>>)
    ensures
        parsed_mode(args) matches Ok(Some(req)) ==> {
            &&& req.fault_test != FaultTest::NoFault ==> exists|j: int|
                0 <= j < args.len() && #[trigger] args[j] == fault_argument(req.fault_test)
            &&& req.switch_page_tables ==> exists|j: int|
                0 <= j < args.len() && #[trigger] args[j] == switch_argument()
        },
{
    match parsed_mode(args) {
        Ok(Some(req)) => {
            lemma_fold_fault(args, 0, (None, None, None), req.fault_test);
            lemma_fold_switch(args, 0, (None, None, None));
        },
        _ => {},
    }
}

proof fn lemma_fold_takeover_kept(args: Seq<Seq<u8>>, i: int, s: ModeSettings)
    requires
        0 <= i,
        s.0 == Some(true) || exists|j: int| i <= j < args.len() && #[trigger] args[j] == takeover_argument(),
    ensures
        mode_fold(args, i, s) matches Ok(s2) ==> s2.0 == Some(true),
    decreases args.len() - i,
{
    if i < args.len() {
        let t = takeover_argument();
        if args[i] == t {
            assert(has_prefix(t, mode_key())) by {
                assert(t.subrange(0, 5) =~= mode_key());
            }
            assert(after_prefix(t, mode_key()) =~= seq![0x74u8, 0x61u8, 0x6bu8, 0x65u8, 0x6fu8, 0x76u8, 0x65u8, 0x72u8]);
            assert(!has_prefix(t, fault_key())) by {
                assert(t.subrange(0, 6)[0] != fault_key()[0]);
            }
            assert(!has_prefix(t, mmu_key())) by {
                assert(t.subrange(0, 4)[1] != mmu_key()[1]);
            }
        }
        match mode_step(s, args[i]) {
            Err(_) => {},
            Ok(s2) => {
                if s.0 == Some(true) || args[i] == t {
                    assert(s2.0 == Some(true));
                } else {
                    let j = choose|j: int| i <= j < args.len() && #[trigger] args[j] == takeover_argument();
                    assert(j != i);
                }
                lemma_fold_takeover_kept(args, i + 1, s2);
            },
        }
    }
}

/// `mode=takeover` always requests takeover: arguments that hold it parse
/// to a takeover request or to an error.
pub proof fn lemma_takeover_argument_requests_takeover(args: Seq<Seq<u8>>)
    requires
        exists|j: int| 0 <= j < args.len() && #[trigger] args[j] == takeover_argument(),
    ensures
        parsed_mode(args) is Ok ==> parsed_mode(args) matches Ok(Some(_)),
{
    lemma_fold_takeover_kept(args, 0, (None, None, None));
}

/// The views of the arguments.
pub open spec fn arg_views(arguments: Seq<&[u8]>) -> Seq<Seq<u8>> {
    arguments.map_values(|a: &[u8]| a@)
}

pub(crate) fn starts_with(s: &[u8], p: &[u8]) -> (r: bool)
    ensures
        r == has_prefix(s@, p@),
{
    if p.len() > s.len() {
        return false;
    }
    let mut i: usize = 0;
    while i < p.len()
        invariant
            p@.len() <= s@.len(),
            i <= p@.len(),
            forall|j: int| 0 <= j < i ==> s@[j] == p@[j],
        decreases p@.len() - i,
    {
        if s[i] != p[i] {
            proof {
                assert(s@.subrange(0, p@.len() as int)[i as int] != p@[i as int]);
            }
            return false;
        }
        i += 1;
    }
    proof {
        assert(s@.subrange(0, p@.len() as int) =~= p@);
    }
    true
}

/// Whether the bytes of `s` from `from` on equal `v`.
fn rest_equals(s: &[u8], from: usize, v: &[u8]) -> (r: bool)
    requires
        from <= s@.len(),
    ensures
        r == (s@.subrange(from as int, s@.len() as int) == v@),
{
    if s.len() - from != v.len() {
        proof {
            assert(s@.subrange(from as int, s@.len() as int).len() != v@.len());
        }
        return false;
    }
    let mut i: usize = 0;
    while i < v.len()
        invariant
            from <= s@.len(),
            s@.len() - from == v@.len(),
            s@.len() == s.len(),
            i <= v@.len(),
            forall|j: int| 0 <= j < i ==> s@[from + j] == v@[j],
        decreases v@.len() - i,
    {
        if s[from + i] != v[i] {
            proof {
                assert(s@.subrange(from as int, s@.len() as int)[i as int] != v@[i as int]);
            }
            return false;
        }
        i += 1;
    }
    proof {
        assert(s@.subrange(from as int, s@.len() as int) =~= v@);
    }
    true
}

fn step(s: ModeSettings, arg: &[u8]) -> (r: Result<ModeSettings, BootModeError>)
    ensures
        r == mode_step(s, arg@),
{
    let (mut takeover, mut fault, mut mmu) = s;
    let mode_key_bytes = [0x6du8, 0x6fu8, 0x64u8, 0x65u8, 0x3du8];
    let fault_key_bytes = [0x66u8, 0x61u8, 0x75u8, 0x6cu8, 0x74u8, 0x3du8];
    let mmu_key_bytes = [0x6du8, 0x6du8, 0x75u8, 0x3du8];
    proof {
        assert(mode_key_bytes@ =~= mode_key());
        assert(fault_key_bytes@ =~= fault_key());
        assert(mmu_key_bytes@ =~= mmu_key());
    }
    if starts_with(arg, &mode_key_bytes) {
        if takeover.is_some() {
            return Err(BootModeError::DuplicateMode);
        }
        let diagnostic = [0x64u8, 0x69u8, 0x61u8, 0x67u8, 0x6eu8, 0x6fu8, 0x73u8, 0x74u8, 0x69u8, 0x63u8];
        let take = [0x74u8, 0x61u8, 0x6bu8, 0x65u8, 0x6fu8, 0x76u8, 0x65u8, 0x72u8];
        proof {
            assert(diagnostic@ =~= seq![0x64u8, 0x69u8, 0x61u8, 0x67u8, 0x6eu8, 0x6fu8, 0x73u8, 0x74u8, 0x69u8, 0x63u8]);
            assert(take@ =~= seq![0x74u8, 0x61u8, 0x6bu8, 0x65u8, 0x6fu8, 0x76u8, 0x65u8, 0x72u8]);
        }
        if rest_equals(arg, 5, &diagnostic) {
            takeover = Some(false);
        } else if rest_equals(arg, 5, &take) {
            takeover = Some(true);
        } else {
            return Err(BootModeError::UnknownMode);
        }
    }
    if starts_with(arg, &fault_key_bytes) {
        if fault.is_some() {
            return Err(BootModeError::DuplicateFault);
        }
        let none = [0x6eu8, 0x6fu8, 0x6eu8, 0x65u8];
        let sync = [0x73u8, 0x79u8, 0x6eu8, 0x63u8];
        let guard = [0x67u8, 0x75u8, 0x61u8, 0x72u8, 0x64u8];
        let unmapped = [0x75u8, 0x6eu8, 0x6du8, 0x61u8, 0x70u8, 0x70u8, 0x65u8, 0x64u8];
        proof {
            assert(none@ =~= seq![0x6eu8, 0x6fu8, 0x6eu8, 0x65u8]);
            assert(sync@ =~= seq![0x73u8, 0x79u8, 0x6eu8, 0x63u8]);
            assert(guard@ =~= seq![0x67u8, 0x75u8, 0x61u8, 0x72u8, 0x64u8]);
            assert(unmapped@ =~= seq![0x75u8, 0x6eu8, 0x6du8, 0x61u8, 0x70u8, 0x70u8, 0x65u8, 0x64u8]);
        }
        if rest_equals(arg, 6, &none) {
            fault = Some(FaultTest::NoFault);
        } else if rest_equals(arg, 6, &sync) {
            fault = Some(FaultTest::Sync);
        } else if rest_equals(arg, 6, &guard) {
            fault = Some(FaultTest::Guard);
        } else if rest_equals(arg, 6, &unmapped) {
            fault = Some(FaultTest::Unmapped);
        } else {
            return Err(BootModeError::UnknownFault);
        }
    }
    if starts_with(arg, &mmu_key_bytes) {
        if mmu.is_some() {
            return Err(BootModeError::DuplicateMmu);
        }
        let inherit = [0x69u8, 0x6eu8, 0x68u8, 0x65u8, 0x72u8, 0x69u8, 0x74u8];
        let switch = [0x73u8, 0x77u8, 0x69u8, 0x74u8, 0x63u8, 0x68u8];
        proof {
            assert(inherit@ =~= seq![0x69u8, 0x6eu8, 0x68u8, 0x65u8, 0x72u8, 0x69u8, 0x74u8]);
            assert(switch@ =~= seq![0x73u8, 0x77u8, 0x69u8, 0x74u8, 0x63u8, 0x68u8]);
        }
        if rest_equals(arg, 4, &inherit) {
            mmu = Some(false);
        } else if rest_equals(arg, 4, &switch) {
            mmu = Some(true);
        } else {
            return Err(BootModeError::UnknownMmu);
        }
    }
    Ok((takeover, fault, mmu))
}

/// Parses the optional `mode=`, `fault=` and `mmu=` U-Boot arguments.
///
/// mode: `diagnostic` (default) returns to U-Boot; `takeover` does not.
/// fault (takeover only): `none`, `sync` (BRK exception test), `guard`
/// (write the unmapped stack guard), `unmapped` (read an unmapped VA).
/// mmu (takeover only): `inherit` keeps U-Boot's EL2 tables; `switch`
/// installs tvisor's.
pub fn parse_mode(arguments: &[&[u8]]) -> (r: Result<Option<TakeoverRequest>, BootModeError>)
    ensures
        r == (match mode_fold(arg_views(arguments@), 0, (None, None, None)) {
            Err(e) => Err(e),
            Ok(s) => mode_request(s),
        }),
        r == parsed_mode(arg_views(arguments@)),
{
    let ghost args = arg_views(arguments@);
    let mut settings: ModeSettings = (None, None, None);
    let mut i: usize = 0;
    while i < arguments.len()
        invariant
            args == arg_views(arguments@),
            i <= arguments@.len(),
            mode_fold(args, 0, (None, None, None)) == mode_fold(args, i as int, settings),
        decreases arguments@.len() - i,
    {
        let arg = arguments[i];
        proof {
            assert(args[i as int] == arg@);
        }
        settings = step(settings, arg)?;
        i += 1;
    }
    let (takeover, fault, mmu) = settings;
    let takeover = match takeover {
        Some(t) => t,
        None => false,
    };
    let fault = match fault {
        Some(f) => f,
        None => FaultTest::NoFault,
    };
    let switch_page_tables = match mmu {
        Some(m) => m,
        None => false,
    };
    if !takeover {
        match fault {
            FaultTest::NoFault => {
                if switch_page_tables {
                    Err(BootModeError::MmuWithoutTakeover)
                } else {
                    Ok(None)
                }
            },
            _ => Err(BootModeError::FaultWithoutTakeover),
        }
    } else {
        let translation_fault = match fault {
            FaultTest::Guard | FaultTest::Unmapped => true,
            _ => false,
        };
        if translation_fault && !switch_page_tables {
            Err(BootModeError::TranslationFaultWithoutMmuSwitch)
        } else {
            Ok(Some(TakeoverRequest { fault_test: fault, switch_page_tables }))
        }
    }
}

/// The first NUL among the first `MAX_ARG_LEN` bytes of `window` at or
/// after `i`.
pub open spec fn first_nul_from(window: Seq<u8>, i: int) -> Option<int>
    decreases MAX_ARG_LEN - i,
{
    if i < 0 || i >= window.len() || i >= MAX_ARG_LEN {
        None
    } else if window[i] == 0 {
        Some(i)
    } else {
        first_nul_from(window, i + 1)
    }
}

/// The bytes of argument windows as values.
pub open spec fn window_views(argv: Seq<Option<&[u8]>>) -> Seq<Option<Seq<u8>>> {
    argv.map_values(
        |w: Option<&[u8]>|
            match w {
                Some(bytes) => Some(bytes@),
                None => None,
            },
    )
}

/// The error of the first of `windows[i..n]` that is missing or holds no NUL.
pub open spec fn first_window_error(windows: Seq<Option<Seq<u8>>>, i: int, n: int) -> Option<
    BootModeError,
>
    decreases n - i,
{
    if i >= n || i < 0 {
        None
    } else {
        match windows[i] {
            None => Some(BootModeError::NullArgument),
            Some(w) => if first_nul_from(w, 0) is None {
                Some(BootModeError::UnterminatedArgument)
            } else {
                first_window_error(windows, i + 1, n)
            },
        }
    }
}

/// The argument strings of the first `n` windows, each cut at its NUL.
pub open spec fn terminated_args(windows: Seq<Option<Seq<u8>>>, n: int) -> Seq<Seq<u8>> {
    Seq::new(
        n as nat,
        |i: int|
            windows[i].unwrap().subrange(0, first_nul_from(windows[i].unwrap(), 0).unwrap()),
    )
}

/// The outcome of parsing the settings `args`.
pub open spec fn parse_result(args: Seq<Seq<u8>>) -> Result<Option<TakeoverRequest>, BootModeError> {
    match mode_fold(args, 0, (None, None, None)) {
        Err(e) => Err(e),
        Ok(s) => mode_request(s),
    }
}

/// The length of the NUL-terminated string at the start of `window`, looking
/// at no more than `MAX_ARG_LEN` bytes.
pub(crate) fn terminated_len(window: &[u8]) -> (r: Option<usize>)
    ensures
        r matches Some(n) ==> first_nul_from(window@, 0) == Some(n as int) && n < window@.len(),
        r is None ==> first_nul_from(window@, 0) is None,
{
    let mut offset: usize = 0;
    while offset < MAX_ARG_LEN && offset < window.len()
        invariant
            offset <= MAX_ARG_LEN,
            first_nul_from(window@, 0) == first_nul_from(window@, offset as int),
        decreases MAX_ARG_LEN - offset,
    {
        if window[offset] == 0 {
            return Some(offset);
        }
        offset += 1;
    }
    None
}

/// Parses the boot mode from U-Boot's `argc` and argument vector.
///
/// `argv` is `None` where the vector pointer is null; otherwise entry `i` is
/// `None` where argument pointer `i` is null, or the readable bytes at that
/// pointer, which need only reach the NUL terminator or `MAX_ARG_LEN` bytes.
/// The count must be between 1 and `MAX_ARGS`; each argument must be
/// terminated within `MAX_ARG_LEN` bytes.
pub fn takeover_request_from_args(argc: isize, argv: Option<&[Option<&[u8]>]>) -> (r: Result<
    Option<TakeoverRequest>,
    BootModeError,
>)
    requires
        1 <= argc <= MAX_ARGS ==> (argv matches Some(v) ==> argc <= v@.len()),
    ensures
        !(1 <= argc <= MAX_ARGS) ==> r == Err::<Option<TakeoverRequest>, BootModeError>(
            BootModeError::InvalidArgCount,
        ),
        1 <= argc <= MAX_ARGS ==> r == (match argv {
            None => Err(BootModeError::NullArgv),
            Some(v) => match first_window_error(window_views(v@), 0, argc as int) {
                Some(e) => Err(e),
                None => parse_result(terminated_args(window_views(v@), argc as int)),
            },
        }),
{
    if argc < 1 || argc > MAX_ARGS as isize {
        return Err(BootModeError::InvalidArgCount);
    }
    let count = argc as usize;
    let windows = match argv {
        None => return Err(BootModeError::NullArgv),
        Some(v) => v,
    };
    let ghost views = window_views(windows@);
    let mut arguments: Vec<&[u8]> = Vec::new();
    let mut i: usize = 0;
    while i < count
        invariant
            count == argc,
            1 <= argc <= MAX_ARGS,
            argv == Some(windows),
            count <= windows@.len(),
            views == window_views(windows@),
            i <= count,
            arguments@.len() == i,
            first_window_error(views, 0, count as int) == first_window_error(views, i as int, count as int),
            forall|j: int| 0 <= j < i ==> #[trigger] views[j] is Some && first_nul_from(views[j].unwrap(), 0) is Some,
            forall|j: int| 0 <= j < i ==> (#[trigger] arguments@[j])@ == terminated_args(views, count as int)[j],
        decreases count - i,
    {
        let window = match windows[i] {
            None => return Err(BootModeError::NullArgument),
            Some(w) => w,
        };
        proof {
            assert(views[i as int] == Some(window@));
        }
        let length = match terminated_len(window) {
            None => return Err(BootModeError::UnterminatedArgument),
            Some(n) => n,
        };
        arguments.push(&window[0..length]);
        i += 1;
    }
    proof {
        let args = terminated_args(views, count as int);
        let got = arg_views(arguments@);
        assert(got =~= args);
    }
    parse_mode(arguments.as_slice())
}

/// Whatever the arguments, a fault test or switched page tables are only
/// ever requested together with takeover, and a translation-fault test only
/// with tvisor's own tables installed.
pub proof fn law_fault_tests_need_takeover(arguments: Seq<Seq<u8>>)
    ensures
        parse_result(arguments) matches Ok(request) ==> match request {
            None => true,
            Some(req) => (req.fault_test == FaultTest::Guard || req.fault_test
                == FaultTest::Unmapped) ==> req.switch_page_tables,
        },
        parse_result(arguments) == Ok::<Option<TakeoverRequest>, BootModeError>(None) ==> ({
            let s = mode_fold(arguments, 0, (None, None, None)).unwrap();
            &&& s.1 is None || s.1 == Some(FaultTest::NoFault)
            &&& s.2 is None || s.2 == Some(false)
        }),
{
}

impl BootModeError {
    /// The name of the variant.
    pub open spec fn debug_text(self) -> Seq<char> {
        match self {
            BootModeError::InvalidArgCount => "InvalidArgCount"@,
            BootModeError::NullArgv => "NullArgv"@,
            BootModeError::NullArgument => "NullArgument"@,
            BootModeError::UnterminatedArgument => "UnterminatedArgument"@,
            BootModeError::DuplicateMode => "DuplicateMode"@,
            BootModeError::UnknownMode => "UnknownMode"@,
            BootModeError::DuplicateFault => "DuplicateFault"@,
            BootModeError::UnknownFault => "UnknownFault"@,
            BootModeError::FaultWithoutTakeover => "FaultWithoutTakeover"@,
            BootModeError::DuplicateMmu => "DuplicateMmu"@,
            BootModeError::UnknownMmu => "UnknownMmu"@,
            BootModeError::MmuWithoutTakeover => "MmuWithoutTakeover"@,
            BootModeError::TranslationFaultWithoutMmuSwitch => "TranslationFaultWithoutMmuSwitch"@,
        }
    }

    pub(crate) fn debug_name(&self) -> (r: &'static str)
        ensures
            r@ == self.debug_text(),
    {
        match self {
            BootModeError::InvalidArgCount => "InvalidArgCount",
            BootModeError::NullArgv => "NullArgv",
            BootModeError::NullArgument => "NullArgument",
            BootModeError::UnterminatedArgument => "UnterminatedArgument",
            BootModeError::DuplicateMode => "DuplicateMode",
            BootModeError::UnknownMode => "UnknownMode",
            BootModeError::DuplicateFault => "DuplicateFault",
            BootModeError::UnknownFault => "UnknownFault",
            BootModeError::FaultWithoutTakeover => "FaultWithoutTakeover",
            BootModeError::DuplicateMmu => "DuplicateMmu",
            BootModeError::UnknownMmu => "UnknownMmu",
            BootModeError::MmuWithoutTakeover => "MmuWithoutTakeover",
            BootModeError::TranslationFaultWithoutMmuSwitch => "TranslationFaultWithoutMmuSwitch",
        }
    }

    /// The variant's name, as the error is shown.
    pub fn to_string(&self) -> (r: String)
        ensures
            r@ == self.debug_text(),
    {
        String::from_str(self.debug_name())
    }
}

} // verus!
