//! Receipt command arguments, execution bookkeeping and bounded publication.
use super::receipt_limits::{add_total_bytes, validate_file_size, MAX_RECEIPT_BYTES, MAX_RECEIPT_FILES, MAX_TOTAL_RECEIPT_BYTES};
use crate::text::{cat, cat3, decimal, decimal_string, eq_str, parse_u64, parse_u64_spec, to_string};
use crate::text::opt_view;
use vstd::prelude::*;

verus! {

/// The default deadline of a manual receipt command.
pub const DEFAULT_TIMEOUT_SECS: u64 = 3600;

/// One evidence binding of an execution: what the receipt proves and where
/// it is written.
#[derive(Debug)]
pub struct EvidenceSpec {
    pub evidence_id: String,
    pub evidence_ref: String,
    pub surface: String,
    pub mode: String,
    pub target_os: String,
    pub output: String,
    pub claims: Option<String>,
}

/// The arguments of a manual receipt command.
#[derive(Debug)]
pub struct ReceiptArgs {
    pub evidence: EvidenceSpec,
    pub timeout_secs: u64,
    pub command: Vec<String>,
}

/// The options that take a required value, in the order they are reported
/// when missing.
pub open spec fn receipt_option(k: int) -> Seq<char> {
    if k == 0 {
        "--evidence-id"@
    } else if k == 1 {
        "--evidence-ref"@
    } else if k == 2 {
        "--surface"@
    } else if k == 3 {
        "--mode"@
    } else if k == 4 {
        "--target-os"@
    } else {
        "--output"@
    }
}

pub open spec fn option_slot(o: Seq<char>) -> Option<int> {
    if o == "--evidence-id"@ {
        Some(0)
    } else if o == "--evidence-ref"@ {
        Some(1)
    } else if o == "--surface"@ {
        Some(2)
    } else if o == "--mode"@ {
        Some(3)
    } else if o == "--target-os"@ {
        Some(4)
    } else if o == "--output"@ {
        Some(5)
    } else {
        None
    }
}

/// The position of the first `--`.
pub open spec fn separator_of(args: Seq<Seq<char>>) -> Option<int> {
    if exists|i: int| 0 <= i < args.len() && args[i] == "--"@ {
        Some(choose|i: int| 0 <= i < args.len() && args[i] == "--"@ && forall|j: int| 0 <= j < i ==> args[j] != "--"@)
    } else {
        None
    }
}

/// What the options read so far set: the six slots, the claims path and the
/// deadline; `None` once an option is refused.
pub type ReceiptScan = (Seq<Option<Seq<char>>>, Option<Seq<char>>, u64);

/// Reads the option at `i` and its value.
pub open spec fn receipt_step(s: ReceiptScan, args: Seq<Seq<char>>, i: int) -> Option<ReceiptScan> {
    if i + 1 >= args.len() {
        None
    } else {
        let option = args[i];
        let value = args[i + 1];
        match option_slot(option) {
            Some(k) => if s.0[k] is Some {
                None
            } else {
                Some((s.0.update(k, Some(value)), s.1, s.2))
            },
            None => if option == "--claims"@ {
                Some((s.0, Some(value), s.2))
            } else if option == "--timeout-secs"@ {
                match parse_u64_spec(value) {
                    Some(t) => if t == 0 {
                        None
                    } else {
                        Some((s.0, s.1, t))
                    },
                    None => None,
                }
            } else {
                None
            },
        }
    }
}

/// Reads the first `n` option pairs.
pub open spec fn receipt_scan(args: Seq<Seq<char>>, n: int) -> Option<ReceiptScan>
    decreases n,
{
    if n <= 0 {
        Some((seq![None, None, None, None, None, None], None, DEFAULT_TIMEOUT_SECS))
    } else {
        match receipt_scan(args, n - 1) {
            Some(s) => receipt_step(s, args, 2 * (n - 1)),
            None => None,
        }
    }
}

pub open spec fn all_slots_set(slots: Seq<Option<Seq<char>>>) -> bool {
    forall|k: int| 0 <= k < 6 ==> (#[trigger] slots[k]) is Some
}

/// The options before `--` are pairs of a known option and its value, each
/// valued option given once; the command after `--` is not empty; every
/// valued option is present.
pub open spec fn receipt_args_spec(args: Seq<Seq<char>>) -> Option<(ReceiptScan, Seq<Seq<char>>)> {
    match separator_of(args) {
        None => None,
        Some(sep) => {
            match receipt_scan(args, (sep + 1) / 2) {
                None => None,
                Some(s) => {
                    let command = args.subrange(sep + 1, args.len() as int);
                    if command.len() == 0 || !all_slots_set(s.0) {
                        None
                    } else {
                        Some((s, command))
                    }
                },
            }
        },
    }
}

impl ReceiptArgs {
    pub open spec fn scan_view(self) -> ReceiptScan {
        (
            seq![
                Some(self.evidence.evidence_id@),
                Some(self.evidence.evidence_ref@),
                Some(self.evidence.surface@),
                Some(self.evidence.mode@),
                Some(self.evidence.target_os@),
                Some(self.evidence.output@),
            ],
            match self.evidence.claims {
                Some(c) => Some(c@),
                None => None,
            },
            self.timeout_secs,
        )
    }
}



pub open spec fn slots_view(v: Seq<Option<String>>) -> Seq<Option<Seq<char>>> {
    v.map_values(|o: Option<String>| opt_view(o))
}

fn option_slot_exec(o: &str) -> (r: Option<usize>)
    ensures
        match option_slot(o@) {
            Some(k) => r == Some(k as usize),
            None => r is None,
        },
{
    if eq_str(o, "--evidence-id") {
        Some(0)
    } else if eq_str(o, "--evidence-ref") {
        Some(1)
    } else if eq_str(o, "--surface") {
        Some(2)
    } else if eq_str(o, "--mode") {
        Some(3)
    } else if eq_str(o, "--target-os") {
        Some(4)
    } else if eq_str(o, "--output") {
        Some(5)
    } else {
        None
    }
}

proof fn lemma_receipt_scan_stays_none(args: Seq<Seq<char>>, n: int, m: int)
    requires
        0 <= n <= m,
        receipt_scan(args, n) is None,
    ensures
        receipt_scan(args, m) is None,
    decreases m - n,
{
    if m > n {
        lemma_receipt_scan_stays_none(args, n, m - 1);
    }
}

fn clone_opt(o: &Option<String>) -> (r: Option<String>)
    ensures
        opt_view(r) == opt_view(*o),
{
    match o {
        Some(s) => Some(to_string(s.as_str())),
        None => None,
    }
}

fn take_slot(slots: &Vec<Option<String>>, k: usize, name: &str) -> (r: Result<String, String>)
    requires
        k < slots@.len(),
    ensures
        r is Ok <==> slots@[k as int] is Some,
        r matches Ok(v) ==> opt_view(slots@[k as int]) == Some(v@),
{
    match &slots[k] {
        Some(v) => Ok(to_string(v.as_str())),
        None => Err(cat3("acceptance-receipt: ", name, " is required")),
    }
}

impl ReceiptArgs {
    /// Parses `<options> -- <command...>`.
    pub fn parse(args: &Vec<String>) -> (r: Result<ReceiptArgs, String>)
        ensures
            r is Ok <==> receipt_args_spec(args.deep_view()) is Some,
            r matches Ok(a) ==> receipt_args_spec(args.deep_view()) == Some((a.scan_view(), a.command.deep_view())),
    {
        let ghost av = args.deep_view();
        let mut sep: usize = 0;
        while sep < args.len() && !eq_str(args[sep].as_str(), "--")
            invariant
                sep <= av.len(),
                av == args.deep_view(),
                forall|j: int| 0 <= j < sep ==> av[j] != "--"@,
            decreases av.len() - sep,
        {
            sep += 1;
        }
        if sep == args.len() {
            return Err(to_string("acceptance-receipt: expected `--` before the command"));
        }
        proof {
            assert(av[sep as int] == "--"@);
            let c = choose|i: int| 0 <= i < av.len() && av[i] == "--"@ && forall|j: int| 0 <= j < i ==> av[j] != "--"@;
            if c < sep {
                assert(av[c] != "--"@);
            }
            if c > sep {
                assert(av[sep as int] != "--"@);
            }
            assert(separator_of(av) == Some(sep as int));
        }
        let mut slots: Vec<Option<String>> = Vec::new();
        let mut z: usize = 0;
        while z < 6
            invariant
                z <= 6,
                slots@.len() == z,
                forall|q: int| 0 <= q < z ==> slots@[q] is None,
            decreases 6 - z,
        {
            slots.push(None);
            z += 1;
        }
        assert(slots_view(slots@) =~= seq![None, None, None, None, None, None]);
        let mut claims: Option<String> = None;
        let mut timeout: u64 = DEFAULT_TIMEOUT_SECS;
        let mut index: usize = 0;
        while index < sep
            invariant
                av == args.deep_view(),
                sep < av.len(),
                separator_of(av) == Some(sep as int),
                index % 2 == 0,
                index <= sep + 1,
                slots@.len() == 6,
                receipt_scan(av, index as int / 2) == Some((slots_view(slots@), opt_view(claims), timeout)),
            decreases sep + 1 - index,
        {
            let ghost n = index as int / 2;
            assert(2 * n == index);
            let option = args[index].as_str();
            assert(av[index as int] == option@);
            if index + 1 >= args.len() {
                proof {
                    lemma_receipt_scan_stays_none(av, n + 1, (sep + 1) as int / 2);
                }
                return Err(cat("acceptance-receipt: missing value for ", option));
            }
            let value = args[index + 1].as_str();
            assert(av[index + 1] == value@);
            match option_slot_exec(option) {
                Some(k) => {
                    if slots[k].is_some() {
                        proof {
                            lemma_receipt_scan_stays_none(av, n + 1, (sep + 1) as int / 2);
                        }
                        return Err(cat("acceptance-receipt: duplicate option ", option));
                    }
                    let ghost before = slots@;
                    slots.set(k, Some(to_string(value)));
                    assert(slots_view(slots@) =~= slots_view(before).update(k as int, Some(value@)));
                },
                None => {
                    if eq_str(option, "--claims") {
                        claims = Some(to_string(value));
                    } else if eq_str(option, "--timeout-secs") {
                        match parse_u64(value) {
                            Some(t) => {
                                if t == 0 {
                                    proof {
                                        lemma_receipt_scan_stays_none(av, n + 1, (sep + 1) as int / 2);
                                    }
                                    return Err(to_string("acceptance-receipt: --timeout-secs must be positive"));
                                }
                                timeout = t;
                            },
                            None => {
                                proof {
                                    lemma_receipt_scan_stays_none(av, n + 1, (sep + 1) as int / 2);
                                }
                                return Err(to_string("acceptance-receipt: --timeout-secs must be an integer"));
                            },
                        }
                    } else {
                        proof {
                            lemma_receipt_scan_stays_none(av, n + 1, (sep + 1) as int / 2);
                        }
                        return Err(cat("acceptance-receipt: unknown option ", option));
                    }
                },
            }
            index += 2;
        }
        assert(index as int / 2 == (sep + 1) as int / 2);
        let mut command: Vec<String> = Vec::new();
        let mut c: usize = sep + 1;
        while c < args.len()
            invariant
                av == args.deep_view(),
                sep + 1 <= c <= av.len(),
                command.deep_view() == av.subrange(sep + 1, c as int),
            decreases av.len() - c,
        {
            let ghost before = command.deep_view();
            let item = to_string(args[c].as_str());
            command.push(item);
            assert(command.deep_view() =~= before.push(item@));
            assert(command.deep_view() =~= av.subrange(sep + 1, c + 1));
            c += 1;
        }
        if command.len() == 0 {
            return Err(to_string("acceptance-receipt: command is required after `--`"));
        }
        let ghost sv = slots_view(slots@);
        assert forall|k: int| 0 <= k < 6 implies (sv[k] is None <==> #[trigger] slots@[k] is None) by {}
        let taken = take_slot(&slots, 0, "--evidence-id");
        if taken.is_err() {
            assert(sv[0] is None);
        }
        let evidence_id = taken?;
        let taken = take_slot(&slots, 1, "--evidence-ref");
        if taken.is_err() {
            assert(sv[1] is None);
        }
        let evidence_ref = taken?;
        let taken = take_slot(&slots, 2, "--surface");
        if taken.is_err() {
            assert(sv[2] is None);
        }
        let surface = taken?;
        let taken = take_slot(&slots, 3, "--mode");
        if taken.is_err() {
            assert(sv[3] is None);
        }
        let mode = taken?;
        let taken = take_slot(&slots, 4, "--target-os");
        if taken.is_err() {
            assert(sv[4] is None);
        }
        let target_os = taken?;
        let taken = take_slot(&slots, 5, "--output");
        if taken.is_err() {
            assert(sv[5] is None);
        }
        let output = taken?;
        let a = ReceiptArgs {
            evidence: EvidenceSpec { evidence_id, evidence_ref, surface, mode, target_os, output, claims },
            timeout_secs: timeout,
            command,
        };
        assert(a.scan_view().0 =~= sv);
        Ok(a)
    }
}


/// The summed length of the first `n` serialized receipts.
pub open spec fn batch_bytes(files: Seq<(String, Vec<u8>)>, n: int) -> int
    decreases n,
{
    if n <= 0 {
        0
    } else {
        batch_bytes(files, n - 1) + files[n - 1].1@.len()
    }
}

/// A publication batch stays within the file count, per-file and aggregate
/// byte limits.
pub open spec fn batch_ok(files: Seq<(String, Vec<u8>)>) -> bool {
    &&& files.len() <= MAX_RECEIPT_FILES
    &&& forall|i: int| 0 <= i < files.len() ==> (#[trigger] files[i]).1@.len() <= MAX_RECEIPT_BYTES
    &&& batch_bytes(files, files.len() as int) <= MAX_TOTAL_RECEIPT_BYTES
}

proof fn lemma_batch_bytes_monotone(files: Seq<(String, Vec<u8>)>, n: int, m: int)
    requires
        0 <= n <= m,
    ensures
        batch_bytes(files, n) <= batch_bytes(files, m),
    decreases m - n,
{
    if m > n {
        lemma_batch_bytes_monotone(files, n, m - 1);
    }
}

/// Checks a batch of serialized receipts (output path, bytes) before it is
/// published.
pub fn validate_batch(files: &Vec<(String, Vec<u8>)>) -> (r: Result<(), String>)
    ensures
        r is Ok <==> batch_ok(files@),
{
    if files.len() > MAX_RECEIPT_FILES {
        return Err(to_string("acceptance-receipt: receipt file count exceeds 4096"));
    }
    let mut total: u64 = 0;
    let mut i: usize = 0;
    while i < files.len()
        invariant
            i <= files@.len(),
            files@.len() <= MAX_RECEIPT_FILES,
            total == batch_bytes(files@, i as int),
            total <= MAX_TOTAL_RECEIPT_BYTES,
            forall|q: int| 0 <= q < i ==> (#[trigger] files@[q]).1@.len() <= MAX_RECEIPT_BYTES,
        decreases files@.len() - i,
    {
        let size = files[i].1.len() as u64;
        validate_file_size("acceptance-receipt: serialized receipt", size)?;
        proof {
            lemma_batch_bytes_monotone(files@, i + 1, files@.len() as int);
        }
        add_total_bytes("acceptance-receipt: serialized receipt group", &mut total, size)?;
        i += 1;
    }
    Ok(())
}

pub open spec fn fnv_step(h: u64, b: u8) -> u64 {
    (((h ^ (b as u64)) as nat * 0x100000001b3nat) % 0x1_0000_0000_0000_0000nat) as u64
}

/// FNV-1a over a byte sequence, from the hash `h`.
pub open spec fn fnv_bytes(h: u64, bytes: Seq<u8>) -> u64
    decreases bytes.len(),
{
    if bytes.len() == 0 {
        h
    } else {
        fnv_step(fnv_bytes(h, bytes.drop_last()), bytes.last())
    }
}

/// The little-endian bytes of `n`.
pub open spec fn le_bytes(n: u64) -> Seq<u8> {
    Seq::new(8, |k: int| ((n >> (8 * k) as u64) & 0xff) as u8)
}

/// The bytes an argument contributes: its UTF-8 length as 8 little-endian
/// bytes, then its UTF-8 bytes.
pub open spec fn argument_bytes(a: Seq<char>) -> Seq<u8> {
    le_bytes(vstd::utf8::encode_utf8(a).len() as u64) + vstd::utf8::encode_utf8(a)
}

/// The FNV-1a hash of the first `n` arguments.
pub open spec fn command_hash(command: Seq<Seq<char>>, n: int) -> u64
    decreases n,
{
    if n <= 0 {
        0xcbf29ce484222325u64
    } else {
        fnv_bytes(command_hash(command, n - 1), argument_bytes(command[n - 1]))
    }
}

pub open spec fn hex_digit(d: u64) -> char {
    if d < 10 {
        (('0' as u64) + d) as char
    } else {
        (('a' as u64) + d - 10) as char
    }
}

/// `h` as 16 zero-padded lowercase hexadecimal digits.
pub open spec fn hex16(h: u64) -> Seq<char> {
    Seq::new(16, |i: int| hex_digit((h >> (4 * (15 - i)) as u64) & 0xf))
}

/// The fingerprint of a command: `fnv1a64:` and the FNV-1a hash of its
/// length-prefixed arguments.
pub open spec fn command_fingerprint_spec(command: Seq<Seq<char>>) -> Seq<char> {
    "fnv1a64:"@ + hex16(command_hash(command, command.len() as int))
}

proof fn lemma_fnv_concat(h: u64, a: Seq<u8>, b: Seq<u8>)
    ensures
        fnv_bytes(h, a + b) == fnv_bytes(fnv_bytes(h, a), b),
    decreases b.len(),
{
    if b.len() > 0 {
        lemma_fnv_concat(h, a, b.drop_last());
        assert((a + b).drop_last() =~= a + b.drop_last());
    } else {
        assert(a + b =~= a);
    }
}

fn fnv_feed(h: u64, bytes: &[u8]) -> (r: u64)
    ensures
        r == fnv_bytes(h, bytes@),
{
    let mut hash = h;
    let mut i: usize = 0;
    while i < bytes.len()
        invariant
            i <= bytes@.len(),
            hash == fnv_bytes(h, bytes@.take(i as int)),
        decreases bytes@.len() - i,
    {
        assert(bytes@.take(i + 1).drop_last() =~= bytes@.take(i as int));
        hash = (hash ^ (bytes[i] as u64)).wrapping_mul(0x100000001b3u64);
        i += 1;
    }
    assert(bytes@.take(bytes@.len() as int) =~= bytes@);
    hash
}

fn le_bytes_exec(n: u64) -> (r: Vec<u8>)
    ensures
        r@ == le_bytes(n),
{
    let mut r: Vec<u8> = Vec::new();
    let mut k: u64 = 0;
    while k < 8
        invariant
            k <= 8,
            r@.len() == k,
            forall|q: int| 0 <= q < k ==> r@[q] == ((n >> (8 * q) as u64) & 0xff) as u8,
        decreases 8 - k,
    {
        let shift: u64 = 8 * k;
        r.push(((n >> shift) & 0xff) as u8);
        k += 1;
    }
    assert(r@ =~= le_bytes(n));
    r
}

fn hex16_exec(h: u64) -> (r: String)
    ensures
        r@ == hex16(h),
{
    let mut r = String::new();
    let mut i: u64 = 0;
    while i < 16
        invariant
            i <= 16,
            r@.len() == i,
            forall|q: int| 0 <= q < i ==> r@[q] == hex_digit((h >> (4 * (15 - q)) as u64) & 0xf),
        decreases 16 - i,
    {
        let shift: u64 = 4 * (15 - i);
        let d: u64 = (h >> shift) & 0xf;
        assert(d < 16) by (bit_vector)
            requires
                d == (h >> shift) & 0xf,
        ;
        let c: char = if d < 10 {
            ((('0' as u8) + (d as u8)) as char)
        } else {
            ((('a' as u8) + (d as u8) - 10) as char)
        };
        assert(c == hex_digit(d));
        crate::text::push_char(&mut r, c);
        i += 1;
    }
    assert(r@ =~= hex16(h));
    r
}

/// The stable fingerprint of a command line.
pub fn command_fingerprint(command: &Vec<String>) -> (r: String)
    ensures
        r@ == command_fingerprint_spec(command.deep_view()),
{
    let mut hash: u64 = 0xcbf29ce484222325u64;
    let mut i: usize = 0;
    while i < command.len()
        invariant
            i <= command@.len(),
            hash == command_hash(command.deep_view(), i as int),
        decreases command@.len() - i,
    {
        let bytes = command[i].as_str().as_bytes();
        let len = bytes.len() as u64;
        assert(bytes@ == vstd::utf8::encode_utf8(command.deep_view()[i as int]));
        let ghost before = hash;
        assert(len == vstd::utf8::encode_utf8(command.deep_view()[i as int]).len() as u64);
        hash = fnv_feed(hash, le_bytes_exec(len).as_slice());
        hash = fnv_feed(hash, bytes);
        proof {
            lemma_fnv_concat(before, le_bytes(len), bytes@);
            assert(le_bytes(len) + bytes@ == argument_bytes(command.deep_view()[i as int]));
            assert(command_hash(command.deep_view(), i + 1) == fnv_bytes(before, argument_bytes(command.deep_view()[i as int])));
        }
        i += 1;
    }
    cat("fnv1a64:", hex16_exec(hash).as_str())
}


/// The fingerprint of a producer contract: `fnv1a64:` and the FNV-1a hash of
/// the contract's serialized bytes.
pub open spec fn contract_fingerprint_spec(bytes: Seq<u8>) -> Seq<char> {
    "fnv1a64:"@ + hex16(fnv_bytes(0xcbf29ce484222325u64, bytes))
}

/// The fingerprint of a producer contract, from its serialized bytes.
pub fn contract_fingerprint(bytes: &Vec<u8>) -> (r: String)
    ensures
        r@ == contract_fingerprint_spec(bytes@),
{
    let hash = fnv_feed(0xcbf29ce484222325u64, bytes.as_slice());
    cat("fnv1a64:", hex16_exec(hash).as_str())
}

/// Decides whether a Windows process-tree kill can be trusted: `tree_result`
/// is what `taskkill /T` reported (or why it could not start), and
/// `direct_result` how killing the direct child went.
pub fn validate_windows_tree_termination(pid: u32, tree_result: &Result<bool, String>, direct_result: &Result<(), String>) -> (r:
    Result<(), String>)
    ensures
        r is Ok <==> *tree_result == Ok::<bool, String>(true),
        (*tree_result == Ok::<bool, String>(false) && direct_result is Ok) ==> (r matches Err(e) && e@ == "taskkill /T for child "@
            + decimal(pid as nat) + " returned non-zero; descendant cleanup is unverified"@),
        tree_result matches Err(t) ==> (direct_result is Ok ==> (r matches Err(e) && e@ == "failed to start taskkill /T for child "@
            + decimal(pid as nat) + ": "@ + t@ + "; descendant cleanup is unverified"@)),
{
    let child = decimal_string(pid as u128);
    match tree_result {
        Ok(true) => Ok(()),
        Ok(false) => match direct_result {
            Err(error) => {
                let head = cat3("taskkill /T for child ", child.as_str(), " returned non-zero; direct-child fallback also failed: ");
                Err(cat(head.as_str(), error.as_str()))
            },
            Ok(()) => Err(cat3("taskkill /T for child ", child.as_str(), " returned non-zero; descendant cleanup is unverified")),
        },
        Err(error) => {
            let head = cat3("failed to start taskkill /T for child ", child.as_str(), ": ");
            match direct_result {
                Err(direct_error) => {
                    let mid = cat3(head.as_str(), error.as_str(), "; direct-child fallback also failed: ");
                    Err(cat(mid.as_str(), direct_error.as_str()))
                },
                Ok(()) => Err(cat3(head.as_str(), error.as_str(), "; descendant cleanup is unverified")),
            }
        },
    }
}

/// What a receipt records went wrong with the repository around the
/// command, in order.
pub open spec fn repository_errors_spec(
    head: Seq<char>,
    head_after: Option<Seq<char>>,
    dirty_before: bool,
    dirty_after: bool,
    head_error: Option<Seq<char>>,
    status_error: Option<Seq<char>>,
) -> Seq<Seq<char>> {
    (if dirty_before { seq!["worktree was dirty before command execution"@] } else { Seq::empty() })
        + (if dirty_after { seq!["worktree was dirty after command execution"@] } else { Seq::empty() })
        + (match head_error {
        Some(e) => seq!["failed to read HEAD after command: "@ + e],
        None => Seq::empty(),
    }) + (match status_error {
        Some(e) => seq!["failed to read worktree state after command: "@ + e],
        None => Seq::empty(),
    }) + (match head_after {
        Some(a) => if a != head { seq!["HEAD changed during command execution"@] } else { Seq::empty() },
        None => Seq::empty(),
    })
}

fn push_all(v: &mut Vec<String>, item: String)
    ensures
        final(v).deep_view() == old(v).deep_view().push(item@),
{
    let ghost before = v.deep_view();
    v.push(item);
    assert(v.deep_view() =~= before.push(item@));
}

/// Appends the repository errors observed around a command to `errors`.
pub fn collect_repository_errors(
    head: &str,
    head_after: &Option<String>,
    dirty_before: bool,
    dirty_after: bool,
    head_error: &Option<String>,
    status_error: &Option<String>,
    errors: &mut Vec<String>,
)
    ensures
        final(errors).deep_view() == old(errors).deep_view() + repository_errors_spec(
            head@,
            super::receipt::opt_view(*head_after),
            dirty_before,
            dirty_after,
            opt_view(*head_error),
            opt_view(*status_error),
        ),
{
    let ghost start = errors.deep_view();
    let ghost a = if dirty_before { seq!["worktree was dirty before command execution"@] } else { Seq::<Seq<char>>::empty() };
    let ghost b = if dirty_after { seq!["worktree was dirty after command execution"@] } else { Seq::<Seq<char>>::empty() };
    let ghost c = match opt_view(*head_error) {
        Some(e) => seq!["failed to read HEAD after command: "@ + e],
        None => Seq::<Seq<char>>::empty(),
    };
    let ghost d = match opt_view(*status_error) {
        Some(e) => seq!["failed to read worktree state after command: "@ + e],
        None => Seq::<Seq<char>>::empty(),
    };
    let ghost f = match opt_view(*head_after) {
        Some(x) => if x != head@ { seq!["HEAD changed during command execution"@] } else { Seq::<Seq<char>>::empty() },
        None => Seq::<Seq<char>>::empty(),
    };
    if dirty_before {
        push_all(errors, to_string("worktree was dirty before command execution"));
    }
    assert(errors.deep_view() =~= start + a);
    if dirty_after {
        push_all(errors, to_string("worktree was dirty after command execution"));
    }
    assert(errors.deep_view() =~= start + a + b);
    if let Some(error) = head_error {
        push_all(errors, cat("failed to read HEAD after command: ", error.as_str()));
    }
    assert(errors.deep_view() =~= start + a + b + c);
    if let Some(error) = status_error {
        push_all(errors, cat("failed to read worktree state after command: ", error.as_str()));
    }
    assert(errors.deep_view() =~= start + a + b + c + d);
    if let Some(after) = head_after {
        if !eq_str(after.as_str(), head) {
            push_all(errors, to_string("HEAD changed during command execution"));
        }
    }
    assert(errors.deep_view() =~= start + a + b + c + d + f);
    assert(a + b + c + d + f =~= repository_errors_spec(head@, opt_view(*head_after), dirty_before, dirty_after, opt_view(*head_error), opt_view(*status_error)));
    assert(start + a + b + c + d + f =~= start + (a + b + c + d + f));
}

/// Marks a receipt's error text failed with `message`: appended after `; `
/// to an existing non-empty error, else the message alone.
pub fn failed_error(existing: &Option<String>, message: &str) -> (r: String)
    ensures
        r@ == match opt_view(*existing) {
            Some(e) => if e.len() > 0 { e + "; "@ + message@ } else { message@ },
            None => message@,
        },
{
    match existing {
        Some(e) => {
            if e.as_str().is_empty() {
                to_string(message)
            } else {
                cat3(e.as_str(), "; ", message)
            }
        },
        None => to_string(message),
    }
}

/// The target OS a receipt of a surface is expected to name.
pub open spec fn target_os_of(surface: Seq<char>) -> Seq<char> {
    if surface == "web"@ {
        "web"@
    } else if surface == "docker"@ {
        "linux"@
    } else if surface == "desktop"@ {
        "windows"@
    } else if surface == "android"@ {
        "android"@
    } else if surface == "release"@ {
        "multi-platform"@
    } else if surface == "github"@ {
        "github"@
    } else {
        surface
    }
}

/// The target OS a receipt of a surface is expected to name.
pub fn expected_target_os(surface: &str) -> (r: &str)
    ensures
        r@ == target_os_of(surface@),
        r@ != surface@ <==> (surface@ == "docker"@ || surface@ == "desktop"@ || surface@ == "release"@),
        r@ == "multi-platform"@ <==> (surface@ == "release"@ || surface@ == "multi-platform"@),
{
    proof {
        lemma_target_os_table(surface@);
    }
    if eq_str(surface, "web") {
        "web"
    } else if eq_str(surface, "docker") {
        "linux"
    } else if eq_str(surface, "desktop") {
        "windows"
    } else if eq_str(surface, "android") {
        "android"
    } else if eq_str(surface, "release") {
        "multi-platform"
    } else if eq_str(surface, "github") {
        "github"
    } else {
        surface
    }
}

/// The one-line report of a producer's run.
pub open spec fn duration_diagnostic_spec(producer_id: Seq<char>, success: bool, millis: nat) -> Seq<char> {
    "acceptance-run: producer "@ + producer_id + " status="@ + (if success { "ok"@ } else { "failed"@ }) + " duration_ms="@
        + decimal(millis)
}

pub fn duration_diagnostic(producer_id: &str, success: bool, millis: u128) -> (r: String)
    ensures
        r@ == duration_diagnostic_spec(producer_id@, success, millis as nat),
{
    let status = if success { "ok" } else { "failed" };
    let head = cat3("acceptance-run: producer ", producer_id, " status=");
    let mid = cat3(head.as_str(), status, " duration_ms=");
    cat(mid.as_str(), decimal_string(millis).as_str())
}

/// Only three surfaces expect a receipt to name a target OS other than the
/// surface itself: docker receipts name `linux`, desktop receipts `windows`,
/// and release receipts `multi-platform`. So a release receipt must name
/// `multi-platform`, and only release receipts (or a surface of that very
/// name) may.
pub proof fn lemma_target_os_table(surface: Seq<char>)
    ensures
        target_os_of(surface) != surface <==> (surface == "docker"@ || surface == "desktop"@ || surface == "release"@),
        target_os_of(surface) == "multi-platform"@ <==> (surface == "release"@ || surface == "multi-platform"@),
        surface == "release"@ ==> target_os_of(surface) == "multi-platform"@,
        surface == "docker"@ ==> target_os_of(surface) == "linux"@,
        surface == "desktop"@ ==> target_os_of(surface) == "windows"@,
{
    reveal_strlit("web");
    reveal_strlit("docker");
    reveal_strlit("linux");
    reveal_strlit("desktop");
    reveal_strlit("windows");
    reveal_strlit("android");
    reveal_strlit("release");
    reveal_strlit("multi-platform");
    reveal_strlit("github");
    assert("web"@.len() == 3 && "web"@[0] == 'w');
    assert("docker"@.len() == 6 && "docker"@[0] == 'd');
    assert("linux"@.len() == 5 && "linux"@[0] == 'l');
    assert("desktop"@.len() == 7 && "desktop"@[0] == 'd');
    assert("windows"@.len() == 7 && "windows"@[0] == 'w');
    assert("android"@.len() == 7 && "android"@[0] == 'a');
    assert("release"@.len() == 7 && "release"@[0] == 'r');
    assert("multi-platform"@.len() == 14 && "multi-platform"@[0] == 'm');
    assert("github"@.len() == 6 && "github"@[0] == 'g');
    assert("web"@ != "docker"@) by { assert("web"@.len() != "docker"@.len()); }
    assert("web"@ != "linux"@) by { assert("web"@.len() != "linux"@.len()); }
    assert("web"@ != "desktop"@) by { assert("web"@.len() != "desktop"@.len()); }
    assert("web"@ != "windows"@) by { assert("web"@.len() != "windows"@.len()); }
    assert("web"@ != "android"@) by { assert("web"@.len() != "android"@.len()); }
    assert("web"@ != "release"@) by { assert("web"@.len() != "release"@.len()); }
    assert("web"@ != "multi-platform"@) by { assert("web"@.len() != "multi-platform"@.len()); }
    assert("web"@ != "github"@) by { assert("web"@.len() != "github"@.len()); }
    assert("docker"@ != "linux"@) by { assert("docker"@.len() != "linux"@.len()); }
    assert("docker"@ != "desktop"@) by { assert("docker"@.len() != "desktop"@.len()); }
    assert("docker"@ != "windows"@) by { assert("docker"@.len() != "windows"@.len()); }
    assert("docker"@ != "android"@) by { assert("docker"@.len() != "android"@.len()); }
    assert("docker"@ != "release"@) by { assert("docker"@.len() != "release"@.len()); }
    assert("docker"@ != "multi-platform"@) by { assert("docker"@.len() != "multi-platform"@.len()); }
    assert("docker"@ != "github"@) by { assert("docker"@[0] != "github"@[0]); }
    assert("linux"@ != "desktop"@) by { assert("linux"@.len() != "desktop"@.len()); }
    assert("linux"@ != "windows"@) by { assert("linux"@.len() != "windows"@.len()); }
    assert("linux"@ != "android"@) by { assert("linux"@.len() != "android"@.len()); }
    assert("linux"@ != "release"@) by { assert("linux"@.len() != "release"@.len()); }
    assert("linux"@ != "multi-platform"@) by { assert("linux"@.len() != "multi-platform"@.len()); }
    assert("linux"@ != "github"@) by { assert("linux"@.len() != "github"@.len()); }
    assert("desktop"@ != "windows"@) by { assert("desktop"@[0] != "windows"@[0]); }
    assert("desktop"@ != "android"@) by { assert("desktop"@[0] != "android"@[0]); }
    assert("desktop"@ != "release"@) by { assert("desktop"@[0] != "release"@[0]); }
    assert("desktop"@ != "multi-platform"@) by { assert("desktop"@.len() != "multi-platform"@.len()); }
    assert("desktop"@ != "github"@) by { assert("desktop"@.len() != "github"@.len()); }
    assert("windows"@ != "android"@) by { assert("windows"@[0] != "android"@[0]); }
    assert("windows"@ != "release"@) by { assert("windows"@[0] != "release"@[0]); }
    assert("windows"@ != "multi-platform"@) by { assert("windows"@.len() != "multi-platform"@.len()); }
    assert("windows"@ != "github"@) by { assert("windows"@.len() != "github"@.len()); }
    assert("android"@ != "release"@) by { assert("android"@[0] != "release"@[0]); }
    assert("android"@ != "multi-platform"@) by { assert("android"@.len() != "multi-platform"@.len()); }
    assert("android"@ != "github"@) by { assert("android"@.len() != "github"@.len()); }
    assert("release"@ != "multi-platform"@) by { assert("release"@.len() != "multi-platform"@.len()); }
    assert("release"@ != "github"@) by { assert("release"@.len() != "github"@.len()); }
    assert("multi-platform"@ != "github"@) by { assert("multi-platform"@.len() != "github"@.len()); }
}

} // verus!
