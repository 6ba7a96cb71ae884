//! Feature extraction: from a parsed package to the opcode sequence, the
//! method spans and the permission vector that the classifier reads.

use vstd::prelude::*;

verus! {

/// Once the opcode sequence of a file has reached this length, no further
/// method is admitted.
pub const CAP: usize = 512_000;

/// Length of the permission vector.
pub const PERMISSION_COUNT: usize = 50;

/// The permission vocabulary. Its order is the order of the classifier's
/// permission input.
pub const PERMS: [&'static str; 50] = [
    "ACCESS_COARSE_LOCATION",
    "ACCESS_FINE_LOCATION",
    "ACCESS_LOCATION_EXTRA_COMMANDS",
    "ACCESS_NETWORK_STATE",
    "ACCESS_WIFI_STATE",
    "BLUETOOTH",
    "BROADCAST_STICKY",
    "CALL_PHONE",
    "CAMERA",
    "CHANGE_CONFIGURATION",
    "CHANGE_NETWORK_STATE",
    "CHANGE_WIFI_STATE",
    "DISABLE_KEYGUARD",
    "GET_ACCOUNTS",
    "GET_TASKS",
    "INSTALL_PACKAGES",
    "INTERACT_ACROSS_USERS_FULL",
    "INTERNET",
    "KILL_BACKGROUND_PROCESSES",
    "MODIFY_AUDIO_SETTINGS",
    "MODIFY_PHONE_STATE",
    "MOUNT_UNMOUNT_FILESYSTEMS",
    "PROCESS_OUTGOING_CALLS",
    "READ_CONTACTS",
    "READ_EXTERNAL_STORAGE",
    "READ_LOGS",
    "READ_PHONE_STATE",
    "READ_SETTINGS",
    "READ_SMS",
    "READ_USER_DICTIONARY",
    "RECEIVE_BOOT_COMPLETED",
    "RECEIVE_MMS",
    "RECEIVE_SMS",
    "RECEIVE_WAP_PUSH",
    "RECORD_AUDIO",
    "RESTART_PACKAGES",
    "SEND_SMS",
    "SET_WALLPAPER",
    "SYSTEM_ALERT_WINDOW",
    "UPDATE_APP_OPS_STATS",
    "USE_CREDENTIALS",
    "VIBRATE",
    "WAKE_LOCK",
    "WRITE_APN_SETTINGS",
    "WRITE_CONTACTS",
    "WRITE_EXTERNAL_STORAGE",
    "WRITE_INTERNAL_STORAGE",
    "WRITE_SECURE_SETTINGS",
    "WRITE_SETTINGS",
    "WRITE_SMS",
];

/// What the parser found in a package: the opcodes of each method, in the
/// order the methods are declared, and the permissions the package declares.
#[derive(Debug)]
pub struct ParsedPackage {
    pub methods: Vec<Vec<u8>>,
    pub permissions: Vec<String>,
}

/// What a `ParsedPackage` holds.
pub struct ParsedPackageView {
    pub methods: Seq<Seq<u8>>,
    pub permissions: Seq<Seq<char>>,
}

impl View for ParsedPackage {
    type V = ParsedPackageView;

    open spec fn view(&self) -> ParsedPackageView {
        ParsedPackageView {
            methods: self.methods@.map_values(|method: Vec<u8>| method@),
            permissions: self.permissions@.map_values(|name: String| name@),
        }
    }
}

/// The features of one file.
#[derive(Debug)]
pub struct FeatureSet {
    /// The opcodes of the admitted methods, one method after the other.
    pub opcodes: Vec<u8>,
    /// For each admitted method the index of its first and of its last opcode
    /// in `opcodes`.
    pub indices: Vec<i32>,
    /// For each word of the vocabulary, 1 if the package declares it, else 0.
    pub permissions: Vec<u8>,
}

/// What a `FeatureSet` holds.
pub struct FeatureSetView {
    pub opcodes: Seq<u8>,
    pub indices: Seq<i32>,
    pub permissions: Seq<u8>,
}

impl View for FeatureSet {
    type V = FeatureSetView;

    open spec fn view(&self) -> FeatureSetView {
        FeatureSetView {
            opcodes: self.opcodes@,
            indices: self.indices@,
            permissions: self.permissions@,
        }
    }
}

impl FeatureSetView {
    /// Number of method spans.
    pub open spec fn span_count(self) -> int {
        self.indices.len() as int / 2
    }

    /// The invariant of a feature set: one bit per word of the vocabulary;
    /// whole spans only; the spans lie inside the opcode sequence, each
    /// beginning where the one before it ended, the first at the start and
    /// the last reaching the end.
    pub open spec fn well_formed(self) -> bool {
        &&& self.permissions.len() == PERMISSION_COUNT
        &&& forall|i: int| 0 <= i < self.permissions.len() ==> #[trigger] self.permissions[i] <= 1
        &&& self.indices.len() % 2 == 0
        &&& forall|p: int|
            0 <= p < self.span_count() ==> {
                &&& 0 <= #[trigger] self.indices[2 * p]
                &&& self.indices[2 * p] <= self.indices[2 * p + 1] + 1
                &&& self.indices[2 * p + 1] + 1 <= self.opcodes.len()
            }
        &&& forall|p: int|
            0 <= p < self.span_count() - 1 ==> {
                #[trigger] self.indices[2 * p + 1] + 1 == self.indices[2 * p + 2]
            }
        &&& self.span_count() > 0 ==> {
            &&& self.indices[0] == 0
            &&& self.indices[self.indices.len() - 1] + 1 == self.opcodes.len()
        }
        &&& self.span_count() == 0 ==> self.opcodes.len() == 0
    }
}

/// Why a package yields no features.
#[derive(Debug, Clone, Copy, PartialEq, Eq, Structural)]
pub enum ExtractError {
    /// A method is so long that the index of its last opcode cannot be held
    /// in a span.
    SpanOverflow,
}

/// Number of opcodes in the first `count` methods.
pub open spec fn total_len(methods: Seq<Seq<u8>>, count: int) -> int
    decreases count,
{
    if count <= 0 {
        0
    } else {
        total_len(methods, count - 1) + methods[count - 1].len()
    }
}

/// The opcodes of the first `count` methods, one method after the other.
pub open spec fn opcodes_of(methods: Seq<Seq<u8>>, count: int) -> Seq<u8>
    decreases count,
{
    if count <= 0 {
        Seq::empty()
    } else {
        opcodes_of(methods, count - 1) + methods[count - 1]
    }
}

/// Number of methods admitted, given that the first `from` are: methods are
/// admitted in order for as long as the opcodes before them stay under the cap.
pub open spec fn admitted_from(methods: Seq<Seq<u8>>, from: int) -> int
    decreases methods.len() - from,
{
    if from < 0 || from >= methods.len() || total_len(methods, from) >= CAP {
        from
    } else {
        admitted_from(methods, from + 1)
    }
}

/// Number of methods admitted.
pub open spec fn admitted(methods: Seq<Seq<u8>>) -> int {
    admitted_from(methods, 0)
}

/// The spans of the first `count` methods: for each the index of its first
/// opcode, then the index of its last.
pub open spec fn spans_of(methods: Seq<Seq<u8>>, count: int) -> Seq<int> {
    Seq::new(
        if count <= 0 {
            0nat
        } else {
            (2 * count) as nat
        },
        |i: int|
            if i % 2 == 0 {
                total_len(methods, i / 2)
            } else {
                total_len(methods, i / 2 + 1) - 1
            },
    )
}

/// Whether every span of the admitted methods can be held.
pub open spec fn spans_fit(methods: Seq<Seq<u8>>) -> bool {
    total_len(methods, admitted(methods)) - 1 <= i32::MAX
}

/// The vocabulary as a sequence of words.
pub open spec fn vocabulary() -> Seq<Seq<char>> {
    Seq::new(PERMISSION_COUNT as nat, |i: int| PERMS@[i]@)
}

/// The permission vector of a package that declares `declared`.
pub open spec fn permission_bits(declared: Seq<Seq<char>>) -> Seq<u8> {
    Seq::new(
        PERMISSION_COUNT as nat,
        |i: int|
            if declared.contains(vocabulary()[i]) {
                1u8
            } else {
                0u8
            },
    )
}

/// The features of a package.
pub open spec fn features_of(package: ParsedPackageView) -> FeatureSetView {
    FeatureSetView {
        opcodes: opcodes_of(package.methods, admitted(package.methods)),
        indices: spans_of(package.methods, admitted(package.methods)).map_values(
            |index: int| index as i32,
        ),
        permissions: permission_bits(package.permissions),
    }
}

/// Whether `word` is among the permissions `declared`.
pub fn declares(declared: &Vec<String>, word: &String) -> (out: bool)
    ensures
        out == declared@.map_values(|name: String| name@).contains(word@),
{
    let ghost names = declared@.map_values(|name: String| name@);
    let mut j: usize = 0;
    while j < declared.len()
        invariant
            j <= declared@.len(),
            names == declared@.map_values(|name: String| name@),
            forall|k: int| 0 <= k < j ==> names[k] != word@,
        decreases declared@.len() - j,
    {
        if declared[j] == *word {
            assert(names[j as int] == word@);
            return true;
        }
        j += 1;
    }
    false
}

/// The permission vector of a package that declares `declared`.
pub fn permission_vector(declared: &Vec<String>) -> (out: Vec<u8>)
    ensures
        out@ == permission_bits(declared@.map_values(|name: String| name@)),
{
    let ghost names = declared@.map_values(|name: String| name@);
    let mut bits: Vec<u8> = Vec::new();
    let mut i: usize = 0;
    while i < PERMISSION_COUNT
        invariant
            i <= PERMISSION_COUNT,
            names == declared@.map_values(|name: String| name@),
            bits@.len() == i,
            forall|k: int| 0 <= k < i ==> bits@[k] == permission_bits(names)[k],
        decreases PERMISSION_COUNT - i,
    {
        let word = PERMS[i].to_owned();
        if declares(declared, &word) {
            bits.push(1);
        } else {
            bits.push(0);
        }
        i += 1;
    }
    assert(bits@ =~= permission_bits(names));
    bits
}

/// Admission goes by the opcodes before a method: while they are under the
/// cap, the method is admitted and the count goes on from the next.
proof fn lemma_admitted_step(methods: Seq<Seq<u8>>, from: int)
    requires
        0 <= from < methods.len(),
        total_len(methods, from) < CAP,
    ensures
        admitted_from(methods, from) == admitted_from(methods, from + 1),
{
}

/// Extracts the features of a package. Methods are taken in order; each is
/// taken whole, and none is taken once the opcodes so far have reached the
/// cap. Fails only where a span cannot be held.
pub fn extract(package: &ParsedPackage) -> (out: Result<FeatureSet, ExtractError>)
    ensures
        match out {
            Ok(features) => spans_fit(package@.methods) && features@ == features_of(package@)
                && features@.well_formed(),
            Err(_) => !spans_fit(package@.methods),
        },
{
    let ghost methods = package@.methods;
    let mut opcodes: Vec<u8> = Vec::new();
    let mut indices: Vec<i32> = Vec::new();
    let mut j: usize = 0;
    let count = package.methods.len();
    while j < count
        invariant_except_break
            total_len(methods, j as int) < CAP,
        invariant
            count == methods.len(),
            methods == package@.methods,
            j <= count,
            admitted(methods) == admitted_from(methods, j as int),
            opcodes@ == opcodes_of(methods, j as int),
            opcodes@.len() == total_len(methods, j as int),
            indices@.len() == 2 * j,
            forall|i: int|
                0 <= i < 2 * j ==> #[trigger] indices@[i] == spans_of(methods, j as int)[i],
            total_len(methods, j as int) - 1 <= i32::MAX,
        ensures
            j == admitted(methods),
        decreases count - j,
    {
        let method = &package.methods[j];
        assert(method@ == methods[j as int]);
        let start = opcodes.len();
        let length = method.len();
        if length > 0x8000_0000usize - start {
            proof {
                assert(total_len(methods, j + 1) == start + length);
                lemma_admitted_step(methods, j as int);
                assert(admitted_from(methods, j + 1) == j + 1);
            }
            return Err(ExtractError::SpanOverflow);
        }
        let mut k: usize = 0;
        while k < length
            invariant
                k <= length,
                length == method@.len(),
                opcodes@ == opcodes_of(methods, j as int) + method@.take(k as int),
            decreases length - k,
        {
            opcodes.push(method[k]);
            assert(method@.take(k + 1) =~= method@.take(k as int).push(method@[k as int]));
            k += 1;
        }
        assert(method@.take(length as int) =~= method@);
        let end = opcodes.len();
        indices.push(start as i32);
        indices.push((end as i64 - 1) as i32);
        proof {
            lemma_admitted_step(methods, j as int);
            assert(total_len(methods, j + 1) == end);
            assert forall|i: int| 0 <= i < 2 * (j + 1) implies #[trigger] indices@[i] == spans_of(
                methods,
                j + 1,
            )[i] by {
                if i < 2 * j {
                    assert(indices@[i] == spans_of(methods, j as int)[i]);
                }
            }
        }
        j += 1;
        if end >= CAP {
            break ;
        }
    }
    let permissions = permission_vector(&package.permissions);
    let features = FeatureSet { opcodes, indices, permissions };
    proof {
        assert(features@.indices =~= features_of(package@).indices);
        lemma_features_well_formed(package@);
    }
    Ok(features)
}

/// The opcode count never falls as methods are added.
pub proof fn lemma_total_len_monotonic(methods: Seq<Seq<u8>>, fewer: int, more: int)
    requires
        fewer <= more,
    ensures
        0 <= total_len(methods, fewer) <= total_len(methods, more),
    decreases more - fewer, more,
{
    if fewer < more {
        lemma_total_len_monotonic(methods, fewer, more - 1);
    } else if fewer > 0 {
        lemma_total_len_monotonic(methods, fewer - 1, more - 1);
    }
}

/// The opcode sequence of the first `count` methods has their opcode count
/// as its length.
pub proof fn lemma_opcodes_len(methods: Seq<Seq<u8>>, count: int)
    ensures
        opcodes_of(methods, count).len() == total_len(methods, count),
    decreases count,
{
    if count > 0 {
        lemma_opcodes_len(methods, count - 1);
    }
}

/// Where admission stops: every method admitted begins under the cap, and
/// the first one left out, if any, would begin at or over it.
pub proof fn lemma_admitted_bounds(methods: Seq<Seq<u8>>, from: int)
    requires
        0 <= from <= methods.len(),
    ensures
        from <= admitted_from(methods, from) <= methods.len(),
        forall|j: int|
            from <= j < admitted_from(methods, from) ==> #[trigger] total_len(methods, j) < CAP,
        admitted_from(methods, from) < methods.len() ==> total_len(
            methods,
            admitted_from(methods, from),
        ) >= CAP,
    decreases methods.len() - from,
{
    if from < methods.len() && total_len(methods, from) < CAP {
        lemma_admitted_bounds(methods, from + 1);
    }
}

/// Truncation. The opcode sequence ends exactly where the last admitted
/// method ends. That method began under the cap, so the sequence exceeds the
/// cap by less than the length of one method. A package whose methods hold
/// fewer opcodes than the cap is taken whole; one that holds as many or more
/// yields at least the cap.
pub proof fn lemma_truncation(package: ParsedPackageView)
    ensures
        0 <= admitted(package.methods) <= package.methods.len(),
        features_of(package).opcodes.len() == total_len(
            package.methods,
            admitted(package.methods),
        ),
        admitted(package.methods) > 0 ==> total_len(
            package.methods,
            admitted(package.methods) - 1,
        ) < CAP,
        total_len(package.methods, package.methods.len() as int) < CAP ==> admitted(
            package.methods,
        ) == package.methods.len(),
        total_len(package.methods, package.methods.len() as int) >= CAP ==> features_of(
            package,
        ).opcodes.len() >= CAP,
{
    let methods = package.methods;
    lemma_admitted_bounds(methods, 0);
    lemma_opcodes_len(methods, admitted(methods));
    let taken = admitted(methods);
    if taken > 0 {
        assert(total_len(methods, taken - 1) < CAP);
    }
    lemma_total_len_monotonic(methods, taken, methods.len() as int);
}

/// Truncation at a method boundary. Where no method begins under the cap and
/// ends over it, the opcode sequence is never longer than the cap, and it is
/// exactly the cap as soon as the package holds that many opcodes.
pub proof fn lemma_truncation_at_boundary(package: ParsedPackageView)
    requires
        forall|j: int|
            0 <= j < package.methods.len() ==> !(#[trigger] total_len(package.methods, j) < CAP
                && CAP < total_len(package.methods, j + 1)),
    ensures
        features_of(package).opcodes.len() <= CAP,
        total_len(package.methods, package.methods.len() as int) >= CAP ==> features_of(
            package,
        ).opcodes.len() == CAP,
{
    let methods = package.methods;
    lemma_truncation(package);
    let taken = admitted(methods);
    if taken > 0 {
        assert(!(total_len(methods, taken - 1) < CAP && CAP < total_len(methods, taken - 1 + 1)));
    }
}

/// The two indices of span `p`: where method `p` begins, and where it ends.
pub proof fn lemma_span_values(methods: Seq<Seq<u8>>, count: int, p: int)
    requires
        0 <= p < count,
    ensures
        spans_of(methods, count).len() == 2 * count,
        spans_of(methods, count)[2 * p] == total_len(methods, p),
        spans_of(methods, count)[2 * p + 1] == total_len(methods, p + 1) - 1,
{
    assert((2 * p) % 2 == 0 && (2 * p) / 2 == p);
    assert((2 * p + 1) % 2 == 1 && (2 * p + 1) / 2 == p);
}

/// What `extract` returns keeps the invariant of a feature set.
pub proof fn lemma_features_well_formed(package: ParsedPackageView)
    requires
        spans_fit(package.methods),
    ensures
        features_of(package).well_formed(),
{
    let methods = package.methods;
    let features = features_of(package);
    let taken = admitted(methods);
    lemma_truncation(package);
    lemma_admitted_bounds(methods, 0);
    assert(features.span_count() == taken);
    assert forall|p: int| 0 <= p < taken implies #[trigger] features.indices[2 * p] == total_len(
        methods,
        p,
    ) && features.indices[2 * p + 1] == total_len(methods, p + 1) - 1 by {
        lemma_span_values(methods, taken, p);
        lemma_total_len_monotonic(methods, 0, p);
        lemma_total_len_monotonic(methods, p + 1, taken);
        assert(total_len(methods, p) < CAP);
        assert(features.indices[2 * p] == spans_of(methods, taken)[2 * p] as i32);
        assert(features.indices[2 * p + 1] == spans_of(methods, taken)[2 * p + 1] as i32);
    }
    assert forall|p: int| 0 <= p < features.span_count() implies {
        &&& 0 <= #[trigger] features.indices[2 * p]
        &&& features.indices[2 * p] <= features.indices[2 * p + 1] + 1
        &&& features.indices[2 * p + 1] + 1 <= features.opcodes.len()
    } by {
        lemma_total_len_monotonic(methods, 0, p);
        lemma_total_len_monotonic(methods, p, p + 1);
        lemma_total_len_monotonic(methods, p + 1, taken);
        lemma_span_values(methods, taken, p);
    }
    assert forall|p: int| 0 <= p < features.span_count() - 1 implies #[trigger] features.indices[2
        * p + 1] + 1 == features.indices[2 * p + 2] by {
        lemma_total_len_monotonic(methods, 0, p + 1);
        lemma_total_len_monotonic(methods, p + 1, taken);
        assert(features.indices[2 * (p + 1)] == total_len(methods, p + 1));
    }
    if taken > 0 {
        lemma_span_values(methods, taken, 0);
        lemma_span_values(methods, taken, taken - 1);
        lemma_total_len_monotonic(methods, 0, taken);
    }
}

} // verus!
