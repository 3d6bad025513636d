//! Database identities: naming a new account's state directory and classifying the
//! data directory at startup.
use vstd::prelude::*;
use vstd::string::*;

verus! {

/// Describes the on-disk state directory of one account.
#[derive(Clone, Debug, PartialEq, Eq)]
pub struct DatabaseInfo {
    /// The base name of the database directory.
    pub directory_base_name: String,
    /// Whether this database uses a test data center.
    pub use_test_dc: bool,
}

impl DatabaseInfo {
    /// A copy that is equal to `self`.
    pub fn duplicate(&self) -> (r: DatabaseInfo)
        ensures
            r == *self,
    {
        DatabaseInfo { directory_base_name: self.directory_base_name.clone(), use_test_dc: self.use_test_dc }
    }
}

/// The character of a decimal digit.
pub open spec fn digit_char(d: nat) -> char {
    if d == 0 {
        '0'
    } else if d == 1 {
        '1'
    } else if d == 2 {
        '2'
    } else if d == 3 {
        '3'
    } else if d == 4 {
        '4'
    } else if d == 5 {
        '5'
    } else if d == 6 {
        '6'
    } else if d == 7 {
        '7'
    } else if d == 8 {
        '8'
    } else {
        '9'
    }
}

/// The decimal notation of `n`, without leading zeros.
pub open spec fn decimal(n: nat) -> Seq<char>
    decreases n,
{
    if n < 10 {
        seq![digit_char(n)]
    } else {
        decimal(n / 10).push(digit_char(n % 10))
    }
}

/// The `k`-th name tried for a directory created at `millis`: `db<millis>` first, then
/// `db<millis>_2`, `db<millis>_3`, and so on.
pub open spec fn candidate_name(millis: nat, k: nat) -> Seq<char> {
    if k <= 1 {
        "db"@ + decimal(millis)
    } else {
        "db"@ + decimal(millis) + "_"@ + decimal(k)
    }
}

/// `name` is what the generator picks at `millis` when `taken` holds the names in use:
/// the first candidate that is not taken.
pub open spec fn is_generated_name(millis: nat, taken: Seq<Seq<char>>, name: Seq<char>) -> bool {
    exists|k: nat|
        #![trigger candidate_name(millis, k)]
        k >= 1 && name == candidate_name(millis, k) && !taken.contains(name) && forall|j: nat|
            1 <= j < k ==> #[trigger] taken.contains(candidate_name(millis, j))
}

/// `name` is the timestamp name for `millis`, possibly with a numeric suffix.
pub open spec fn is_timestamp_name(millis: nat, name: Seq<char>) -> bool {
    exists|k: nat| k >= 1 && name == #[trigger] candidate_name(millis, k)
}

/// The views of a sequence of strings.
pub open spec fn names_of(v: Seq<String>) -> Seq<Seq<char>> {
    v.map_values(|s: String| s@)
}

proof fn lemma_decimal_nonempty(n: nat)
    ensures
        decimal(n).len() >= 1,
    decreases n,
{
    if n >= 10 {
        lemma_decimal_nonempty(n / 10);
    }
}

proof fn lemma_digit_char_injective(a: nat, b: nat)
    requires
        a < 10,
        b < 10,
        digit_char(a) == digit_char(b),
    ensures
        a == b,
{
}

/// Decimal notation is injective.
pub proof fn lemma_decimal_injective(a: nat, b: nat)
    requires
        decimal(a) == decimal(b),
    ensures
        a == b,
    decreases a,
{
    lemma_decimal_nonempty(a / 10);
    lemma_decimal_nonempty(b / 10);
    if a < 10 && b < 10 {
        assert(decimal(a) == seq![digit_char(a)]);
        assert(decimal(b) == seq![digit_char(b)]);
        assert(decimal(a)[0] == digit_char(a));
        assert(decimal(b)[0] == digit_char(b));
        lemma_digit_char_injective(a, b);
    } else if a < 10 {
        assert(decimal(b).len() >= 2);
    } else if b < 10 {
        assert(decimal(a).len() >= 2);
    } else {
        assert(decimal(a).drop_last() =~= decimal(a / 10));
        assert(decimal(b).drop_last() =~= decimal(b / 10));
        assert(decimal(a) == decimal(a / 10).push(digit_char(a % 10)));
        assert(decimal(b) == decimal(b / 10).push(digit_char(b % 10)));
        assert(decimal(a).last() == digit_char(a % 10));
        assert(decimal(b).last() == digit_char(b % 10));
        lemma_decimal_injective(a / 10, b / 10);
        lemma_digit_char_injective(a % 10, b % 10);
    }
}

/// Two candidates for the same time are equal only for the same index.
pub proof fn lemma_candidates_distinct(millis: nat, j: nat, k: nat)
    requires
        1 <= j,
        1 <= k,
        candidate_name(millis, j) == candidate_name(millis, k),
    ensures
        j == k,
{
    let base = "db"@ + decimal(millis);
    if j >= 2 && k >= 2 {
        let p = base + "_"@;
        assert(candidate_name(millis, j) =~= p + decimal(j));
        assert(candidate_name(millis, k) =~= p + decimal(k));
        assert((p + decimal(j)).subrange(p.len() as int, (p + decimal(j)).len() as int) =~= decimal(j));
        assert((p + decimal(k)).subrange(p.len() as int, (p + decimal(k)).len() as int) =~= decimal(k));
        lemma_decimal_injective(j, k);
    } else if j >= 2 {
        lemma_decimal_nonempty(j);
        assert(candidate_name(millis, j).len() > base.len());
    } else if k >= 2 {
        lemma_decimal_nonempty(k);
        assert(candidate_name(millis, k).len() > base.len());
    }
}

fn digit_str(d: u128) -> (r: &'static str)
    requires
        d < 10,
    ensures
        r@ == seq![digit_char(d as nat)],
{
    proof {
        reveal_strlit("0");
        reveal_strlit("1");
        reveal_strlit("2");
        reveal_strlit("3");
        reveal_strlit("4");
        reveal_strlit("5");
        reveal_strlit("6");
        reveal_strlit("7");
        reveal_strlit("8");
        reveal_strlit("9");
    }
    if d == 0 {
        "0"
    } else if d == 1 {
        "1"
    } else if d == 2 {
        "2"
    } else if d == 3 {
        "3"
    } else if d == 4 {
        "4"
    } else if d == 5 {
        "5"
    } else if d == 6 {
        "6"
    } else if d == 7 {
        "7"
    } else if d == 8 {
        "8"
    } else {
        "9"
    }
}

/// Appends the decimal notation of `n`.
pub fn push_decimal(out: &mut String, n: u128)
    ensures
        final(out)@ == old(out)@ + decimal(n as nat),
    decreases n,
{
    if n >= 10 {
        push_decimal(out, n / 10);
        out.append(digit_str(n % 10));
        assert(old(out)@ + decimal(n as nat) =~= old(out)@ + decimal((n / 10) as nat) + seq![
            digit_char((n % 10) as nat),
        ]);
    } else {
        out.append(digit_str(n));
    }
}

/// The `k`-th candidate name for a directory created at `millis`.
pub fn candidate_dir_name(millis: u128, k: u128) -> (r: String)
    ensures
        r@ == candidate_name(millis as nat, k as nat),
{
    let mut name = String::from_str("db");
    push_decimal(&mut name, millis);
    if k >= 2 {
        name.append("_");
        push_decimal(&mut name, k);
    }
    name
}

/// Whether `v` holds a string equal to `s`.
pub fn contains_name(v: &Vec<String>, s: &String) -> (r: bool)
    ensures
        r == names_of(v@).contains(s@),
{
    let mut i: usize = 0;
    while i < v.len()
        invariant
            i <= v.len(),
            forall|j: int| 0 <= j < i ==> v@[j]@ != s@,
        decreases v.len() - i,
    {
        if v[i] == *s {
            assert(names_of(v@)[i as int] == s@);
            return true;
        }
        i = i + 1;
    }
    proof {
        if names_of(v@).contains(s@) {
            let j = choose|j: int| 0 <= j < names_of(v@).len() && names_of(v@)[j] == s@;
            assert(v@[j]@ == s@);
        }
    }
    false
}

/// Generates the base name of a new database directory from the current time in
/// milliseconds: `db<millis>`, or, if that name is taken, `db<millis>_<n>` for the
/// smallest `n >= 2` whose name is free.
pub fn generate_database_dir_base_name(now_millis: u128, taken: &Vec<String>) -> (r: String)
    ensures
        is_generated_name(now_millis as nat, names_of(taken@), r@),
{
    let ghost m = now_millis as nat;
    let ghost t = names_of(taken@);
    let ghost mut tried: Seq<Seq<char>> = Seq::empty();
    let n = taken.len();
    let mut k: u128 = 1;
    loop
        invariant
            n == taken@.len(),
            k >= 1,
            m == now_millis as nat,
            tried.len() == k - 1,
            k - 1 <= taken@.len(),
            tried.no_duplicates(),
            t == names_of(taken@),
            forall|j: int| 0 <= j < tried.len() ==> tried[j] == candidate_name(m, (j + 1) as nat),
            forall|j: int| 0 <= j < tried.len() ==> t.contains(#[trigger] tried[j]),
        decreases taken@.len() + 1 - k,
    {
        let name = candidate_dir_name(now_millis, k);
        if !contains_name(taken, &name) {
            assert(candidate_name(m, k as nat) == name@);
            assert forall|j: nat| 1 <= j < k as nat implies #[trigger] t.contains(candidate_name(m, j)) by {
                assert(tried[j - 1] == candidate_name(m, j));
            }
            return name;
        }
        proof {
            assert forall|j: int| 0 <= j < tried.len() implies tried[j] != name@ by {
                if tried[j] == name@ {
                    lemma_candidates_distinct(m, (j + 1) as nat, k as nat);
                }
            }
            tried = tried.push(name@);
            assert(tried.to_set().subset_of(t.to_set()));
            tried.unique_seq_to_set();
            vstd::set_lib::lemma_len_subset(tried.to_set(), t.to_set());
            t.lemma_cardinality_of_set();
            assert(tried.len() <= t.len());
            assert(t.len() == taken@.len());
        }
        k = k + 1;
    }
}

/// Names generated one after another at the same millisecond, each against the names in use
/// together with the names generated before it, are pairwise distinct, and each of them is the
/// timestamp name, possibly with a numeric suffix.
pub proof fn lemma_generated_names_unique(
    millis: nat,
    taken: Seq<Seq<char>>,
    names: Seq<Seq<char>>,
)
    requires
        forall|i: int|
            0 <= i < names.len() ==> is_generated_name(millis, taken + names.take(i), #[trigger] names[i]),
    ensures
        names.no_duplicates(),
        forall|i: int| 0 <= i < names.len() ==> is_timestamp_name(millis, #[trigger] names[i]),
{
    assert forall|i: int, j: int| 0 <= i < names.len() && 0 <= j < names.len() && i != j implies names[i]
        != names[j] by {
        let (a, b) = if i < j { (i, j) } else { (j, i) };
        assert(is_generated_name(millis, taken + names.take(b), names[b]));
        assert((taken + names.take(b))[taken.len() + a] == names[a]);
        assert((taken + names.take(b)).contains(names[a]));
    }
    assert forall|i: int| 0 <= i < names.len() implies is_timestamp_name(millis, #[trigger] names[i]) by {
        assert(is_generated_name(millis, taken + names.take(i), names[i]));
        let k = choose|k: nat|
            #![trigger candidate_name(millis, k)]
            k >= 1 && names[i] == candidate_name(millis, k) && !(taken + names.take(i)).contains(
                names[i],
            ) && forall|j: nat|
                1 <= j < k ==> #[trigger] (taken + names.take(i)).contains(candidate_name(millis, j));
        assert(names[i] == candidate_name(millis, k));
    }
}

/// One entry of the data directory, as the file system reported it.
#[derive(Clone, Debug, PartialEq, Eq)]
pub struct DirectoryEntry {
    /// The entry's file name.
    pub name: String,
    /// Whether the entry is a directory.
    pub is_dir: bool,
    /// Whether the entry holds the production environment's database file.
    pub has_production_marker: bool,
    /// Whether the entry holds the test environment's database file.
    pub has_test_marker: bool,
}

/// The state of the data directory.
#[derive(Debug, PartialEq, Eq)]
pub enum DatadirState {
    /// No session was found.
    Empty,
    /// Sessions were found.
    HasSessions {
        /// The sessions found, in the order of the directory listing.
        database_infos: Vec<DatabaseInfo>,
        /// The persisted order of recently used sessions, without names that have no directory.
        recently_used_sessions: Vec<String>,
    },
}

/// The session that a directory entry holds, if any.
pub open spec fn entry_session(e: DirectoryEntry) -> Option<DatabaseInfo> {
    if e.is_dir && e.has_production_marker {
        Some(DatabaseInfo { directory_base_name: e.name, use_test_dc: false })
    } else if e.is_dir && e.has_test_marker {
        Some(DatabaseInfo { directory_base_name: e.name, use_test_dc: true })
    } else {
        None
    }
}

/// The sessions that a directory listing holds, in its order.
pub open spec fn discovered(entries: Seq<DirectoryEntry>) -> Seq<DatabaseInfo>
    decreases entries.len(),
{
    if entries.len() == 0 {
        Seq::empty()
    } else {
        let rest = discovered(entries.drop_last());
        match entry_session(entries.last()) {
            Some(info) => rest.push(info),
            None => rest,
        }
    }
}

/// Whether one of `infos` has the directory `name`.
pub open spec fn has_directory(infos: Seq<DatabaseInfo>, name: Seq<char>) -> bool {
    exists|i: int| 0 <= i < infos.len() && #[trigger] infos[i].directory_base_name@ == name
}

/// The names of `persisted` that have a directory among `infos`, in their order.
pub open spec fn retained(persisted: Seq<String>, infos: Seq<DatabaseInfo>) -> Seq<String>
    decreases persisted.len(),
{
    if persisted.len() == 0 {
        Seq::empty()
    } else {
        let rest = retained(persisted.drop_last(), infos);
        if has_directory(infos, persisted.last()@) {
            rest.push(persisted.last())
        } else {
            rest
        }
    }
}

/// A name without a directory is never retained, and every retained name has one.
pub proof fn lemma_stale_entries_pruned(persisted: Seq<String>, infos: Seq<DatabaseInfo>)
    ensures
        forall|k: int|
            0 <= k < retained(persisted, infos).len() ==> has_directory(
                infos,
                #[trigger] retained(persisted, infos)[k]@,
            ),
        forall|name: Seq<char>|
            !has_directory(infos, name) ==> !(#[trigger] names_of(retained(persisted, infos)).contains(
                name,
            )),
    decreases persisted.len(),
{
    if persisted.len() > 0 {
        lemma_stale_entries_pruned(persisted.drop_last(), infos);
    }
    let r = retained(persisted, infos);
    assert forall|k: int| 0 <= k < r.len() implies has_directory(infos, #[trigger] r[k]@) by {
        if persisted.len() > 0 {
            let rest = retained(persisted.drop_last(), infos);
            if k < rest.len() {
                assert(r[k] == rest[k]);
            }
        }
    }
    assert forall|name: Seq<char>| !has_directory(infos, name) implies !(#[trigger] names_of(r).contains(
        name,
    )) by {
        if names_of(r).contains(name) {
            let k = choose|k: int| 0 <= k < names_of(r).len() && names_of(r)[k] == name;
            assert(r[k]@ == name);
        }
    }
}

fn find_directory(infos: &Vec<DatabaseInfo>, name: &String) -> (r: bool)
    ensures
        r == has_directory(infos@, name@),
{
    let mut i: usize = 0;
    while i < infos.len()
        invariant
            i <= infos.len(),
            forall|j: int| 0 <= j < i ==> infos@[j].directory_base_name@ != name@,
        decreases infos.len() - i,
    {
        if infos[i].directory_base_name == *name {
            return true;
        }
        i = i + 1;
    }
    false
}

/// Classifies the data directory from its listing and the persisted order of recently used
/// sessions. A directory holds a session when it holds the production environment's database
/// file, or else the test environment's one (then the session uses the test data center).
pub fn analyze_data_dir(entries: &Vec<DirectoryEntry>, persisted: &Vec<String>) -> (r: DatadirState)
    ensures
        match r {
            DatadirState::Empty => discovered(entries@).len() == 0,
            DatadirState::HasSessions { database_infos, recently_used_sessions } => {
                &&& discovered(entries@).len() > 0
                &&& database_infos@ == discovered(entries@)
                &&& recently_used_sessions@ == retained(persisted@, discovered(entries@))
            },
        },
{
    let mut database_infos: Vec<DatabaseInfo> = Vec::new();
    let mut i: usize = 0;
    while i < entries.len()
        invariant
            i <= entries.len(),
            database_infos@ == discovered(entries@.subrange(0, i as int)),
        decreases entries.len() - i,
    {
        let e = &entries[i];
        assert(entries@.subrange(0, i + 1).drop_last() =~= entries@.subrange(0, i as int));
        if e.is_dir && e.has_production_marker {
            database_infos.push(DatabaseInfo { directory_base_name: e.name.clone(), use_test_dc: false });
        } else if e.is_dir && e.has_test_marker {
            database_infos.push(DatabaseInfo { directory_base_name: e.name.clone(), use_test_dc: true });
        }
        i = i + 1;
    }
    assert(entries@.subrange(0, entries@.len() as int) =~= entries@);
    if database_infos.len() == 0 {
        return DatadirState::Empty;
    }
    let mut recently_used_sessions: Vec<String> = Vec::new();
    let mut j: usize = 0;
    while j < persisted.len()
        invariant
            j <= persisted.len(),
            database_infos@ == discovered(entries@),
            recently_used_sessions@ == retained(persisted@.subrange(0, j as int), database_infos@),
        decreases persisted.len() - j,
    {
        assert(persisted@.subrange(0, j + 1).drop_last() =~= persisted@.subrange(0, j as int));
        if find_directory(&database_infos, &persisted[j]) {
            recently_used_sessions.push(persisted[j].clone());
        }
        j = j + 1;
    }
    assert(persisted@.subrange(0, persisted@.len() as int) =~= persisted@);
    DatadirState::HasSessions { database_infos, recently_used_sessions }
}

} // verus!
