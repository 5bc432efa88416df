use vstd::prelude::*;

use crate::mods::models::{AppliedTag, Listing};
use crate::mods::sql::reverse_rows;
use crate::mods::util::push_char;
use twox_hash::XxHash64;

verus! {

/// Whether a path is catalogued, and whether its listing carries a checksum.
pub enum ChecksumState {
    NotPresent,
    PresentButNoChecksum,
    PresentWithChecksum,
}

// ---------------------------------------------------------------------------
// Checksums
// ---------------------------------------------------------------------------

#[verifier::external_type_specification]
#[verifier::external_body]
pub struct ExXxHash64(XxHash64);

/// The bytes that a hasher has absorbed since it was made, in order.
pub uninterp spec fn hasher_input(h: XxHash64) -> Seq<u8>;

/// The seed that a hasher was made with.
pub uninterp spec fn hasher_seed(h: XxHash64) -> u64;

/// The 64-bit xxHash (XXH64) of `data` under `seed`.
pub uninterp spec fn xxhash64(seed: u64, data: Seq<u8>) -> u64;

/// `XxHash64::default()` (twox-hash): a hasher with seed 0 that has absorbed
/// nothing yet.
#[verifier::external_body]
fn hasher_new() -> (h: XxHash64)
    ensures
        hasher_seed(h) == 0,
        hasher_input(h) == Seq::<u8>::empty(),
{
    XxHash64::default()
}

/// `<XxHash64 as Hasher>::write` (twox-hash): the hasher absorbs `bytes`
/// after what it held, and keeps its seed. The hasher counts the absorbed
/// bytes in a `u64`; the bound keeps that count from overflowing.
#[verifier::external_body]
fn hasher_write(h: &mut XxHash64, bytes: &[u8])
    requires
        hasher_input(*old(h)).len() + bytes@.len() <= u64::MAX,
    ensures
        hasher_seed(*final(h)) == hasher_seed(*old(h)),
        hasher_input(*final(h)) == hasher_input(*old(h)) + bytes@,
{
    std::hash::Hasher::write(h, bytes)
}

/// `<XxHash64 as Hasher>::finish` (twox-hash): the XXH64 digest of all the
/// bytes absorbed, under the hasher's seed. It does not depend on how the
/// input was cut into writes.
#[verifier::external_body]
fn hasher_finish(h: &XxHash64) -> (d: u64)
    ensures
        d == xxhash64(hasher_seed(*h), hasher_input(*h)),
{
    std::hash::Hasher::finish(h)
}

/// Computes the checksum of a file from the chunks in which it is read.
pub struct FileHasher {
    state: XxHash64,
    absorbed: u64,
}

impl FileHasher {
    /// The bytes absorbed so far.
    pub closed spec fn input(&self) -> Seq<u8> {
        hasher_input(self.state)
    }

    #[verifier::type_invariant]
    closed spec fn wf(&self) -> bool {
        &&& hasher_seed(self.state) == 0
        &&& self.absorbed == hasher_input(self.state).len()
    }

    /// A hasher that has absorbed nothing.
    pub fn new() -> (h: Self)
        ensures
            h.input() == Seq::<u8>::empty(),
    {
        FileHasher { state: hasher_new(), absorbed: 0 }
    }

    /// How many bytes have been absorbed.
    pub fn absorbed(&self) -> (n: u64)
        ensures
            n == self.input().len(),
    {
        proof {
            use_type_invariant(self);
        }
        self.absorbed
    }

    /// Absorbs the next chunk of the file.
    pub fn update(&mut self, chunk: &[u8])
        requires
            old(self).input().len() + chunk@.len() <= u64::MAX,
        ensures
            final(self).input() == old(self).input() + chunk@,
    {
        proof {
            use_type_invariant(&*self);
        }
        let mut state = self.state;
        hasher_write(&mut state, chunk);
        let n: u64 = chunk.len() as u64;
        *self = FileHasher { state, absorbed: self.absorbed + n };
    }

    /// The XXH64 digest, with seed 0, of everything absorbed.
    pub fn digest(&self) -> (d: u64)
        ensures
            d == xxhash64(0, self.input()),
    {
        proof {
            use_type_invariant(self);
        }
        hasher_finish(&self.state)
    }
}

/// The lowercase hexadecimal digit for `d < 16`.
pub open spec fn hex_digit(d: nat) -> char {
    if d < 10 {
        (d + 48) as char
    } else {
        (d + 87) as char
    }
}

/// `n` in lowercase hexadecimal, without leading zeros (`format!("{:x}", n)`).
pub open spec fn hex_lower(n: nat) -> Seq<char>
    decreases n,
{
    if n < 16 {
        seq![hex_digit(n)]
    } else {
        hex_lower(n / 16).push(hex_digit(n % 16))
    }
}

fn hex_char(d: u64) -> (c: char)
    requires
        d < 16,
    ensures
        c == hex_digit(d as nat),
{
    match d {
        0 => '0',
        1 => '1',
        2 => '2',
        3 => '3',
        4 => '4',
        5 => '5',
        6 => '6',
        7 => '7',
        8 => '8',
        9 => '9',
        10 => 'a',
        11 => 'b',
        12 => 'c',
        13 => 'd',
        14 => 'e',
        _ => 'f',
    }
}

fn push_hex(n: u64, out: &mut String)
    ensures
        final(out)@ == old(out)@ + hex_lower(n as nat),
    decreases n,
{
    if n >= 16 {
        push_hex(n / 16, out);
    }
    let c = hex_char(n % 16);
    push_char(out, c);
    proof {
        if n >= 16 {
            assert(old(out)@ + hex_lower(n as nat) =~= old(out)@ + hex_lower((n / 16) as nat) + seq![c]);
        } else {
            assert(old(out)@ + hex_lower(n as nat) =~= old(out)@.push(c));
        }
    }
}

/// `n` written in lowercase hexadecimal.
pub fn to_hex_lower(n: u64) -> (r: String)
    ensures
        r@ == hex_lower(n as nat),
        hex_numeral_value(r@) == n,
        is_lower_hex_numeral(r@),
{
    let mut r = String::new();
    push_hex(n, &mut r);
    proof {
        assert(Seq::<char>::empty() + hex_lower(n as nat) =~= hex_lower(n as nat));
        lemma_hex_lower_reads_back(n as nat);
    }
    r
}

/// The value of a hexadecimal digit by its character code: '0'..'9' are
/// 0..9 and 'a'..'f' are 10..15; any other character has no value (-1).
pub open spec fn hex_digit_value(c: char) -> int {
    if '0' <= c && c <= '9' {
        (c as int) - ('0' as int)
    } else if 'a' <= c && c <= 'f' {
        (c as int) - ('a' as int) + 10
    } else {
        -1
    }
}

/// The number that the base-16 numeral `s` denotes, most significant digit
/// first.
pub open spec fn hex_numeral_value(s: Seq<char>) -> int
    decreases s.len(),
{
    if s.len() == 0 {
        0
    } else {
        hex_numeral_value(s.drop_last()) * 16 + hex_digit_value(s.last())
    }
}

/// `s` is a lowercase base-16 numeral without leading zeros: at least one
/// digit, each of '0'..'9' or 'a'..'f', and a first digit other than '0'
/// unless the numeral is "0" itself.
pub open spec fn is_lower_hex_numeral(s: Seq<char>) -> bool {
    &&& s.len() > 0
    &&& forall|i: int| 0 <= i < s.len() ==> 0 <= #[trigger] hex_digit_value(s[i]) < 16
    &&& (s[0] == '0' ==> s.len() == 1)
}

/// The checksum text of a digest reads back as the digest: read as a
/// base-16 numeral with the standard digit values, the lowercase hex text of
/// `n` denotes `n`, and it is a numeral without leading zeros.
pub proof fn lemma_hex_lower_reads_back(n: nat)
    ensures
        hex_numeral_value(hex_lower(n)) == n,
        is_lower_hex_numeral(hex_lower(n)),
    decreases n,
{
    let d = n % 16;
    assert(0 <= hex_digit_value(hex_digit(d)) < 16 && hex_digit_value(hex_digit(d)) == d) by {
        assert(('0' as int) == 48 && ('9' as int) == 57 && ('a' as int) == 97 && ('f' as int) == 102);
        if d < 10 {
            assert(hex_digit(d) == (d + 48) as char);
            assert((((d + 48) as char) as int) == d + 48);
        } else {
            assert(hex_digit(d) == (d + 87) as char);
            assert((((d + 87) as char) as int) == d + 87);
        }
    }
    let s = hex_lower(n);
    if n < 16 {
        assert(d == n);
        assert(s =~= seq![hex_digit(n)]);
        assert(s.drop_last() =~= Seq::<char>::empty());
        assert(hex_numeral_value(s.drop_last()) == 0);
        assert(s.last() == hex_digit(d));
    } else {
        lemma_hex_lower_reads_back(n / 16);
        let p = hex_lower(n / 16);
        assert(s == p.push(hex_digit(d)));
        assert(s.drop_last() =~= p);
        assert(s.last() == hex_digit(d));
        assert(hex_numeral_value(s) == hex_numeral_value(p) * 16 + hex_digit_value(s.last()));
        assert(n == (n / 16) * 16 + n % 16) by (nonlinear_arith);
        assert(s[0] == p[0]);
        assert forall|i: int| 0 <= i < s.len() implies 0 <= #[trigger] hex_digit_value(s[i]) < 16 by {
            if i < p.len() {
                assert(s[i] == p[i]);
            }
        }
        if p[0] == '0' {
            assert(p.len() == 1);
            assert(hex_numeral_value(p) == hex_digit_value(p[0])) by {
                assert(p.drop_last() =~= Seq::<char>::empty());
                assert(hex_numeral_value(p.drop_last()) == 0);
                assert(p.last() == p[0]);
            }
        }
    }
}

/// The text stored as a file's checksum: "Not Found!" when the file is not
/// there (`digest` is `None`), else its XXH64 digest in lowercase
/// hexadecimal.
pub fn hash_file(digest: Option<u64>) -> (r: String)
    ensures
        digest is None ==> r@ == "Not Found!"@,
        digest matches Some(d) ==> r@ == hex_lower(d as nat),
        digest matches Some(d) ==> hex_numeral_value(r@) == d && is_lower_hex_numeral(r@),
{
    match digest {
        None => "Not Found!".to_owned(),
        Some(d) => to_hex_lower(d),
    }
}

// ---------------------------------------------------------------------------
// Scanning
// ---------------------------------------------------------------------------

/// What the catalog knows of a path, from the listings stored under it
/// (last stored first): nothing, a listing without checksum, or a listing
/// with one; with the id of the first listing when there is one.
pub open spec fn checksum_state(results: Seq<Listing>) -> (ChecksumState, Option<String>) {
    if results.len() == 0 {
        (ChecksumState::NotPresent, None)
    } else if results[0].checksum is None {
        (ChecksumState::PresentButNoChecksum, Some(results[0].id))
    } else {
        (ChecksumState::PresentWithChecksum, Some(results[0].id))
    }
}

/// Tells from the listings stored under a path whether the file has been
/// catalogued and hashed.
pub fn is_file_hashed(results: &Vec<Listing>) -> (r: (ChecksumState, Option<String>))
    ensures
        r == checksum_state(results@),
{
    if results.len() == 0 {
        (ChecksumState::NotPresent, None)
    } else if results[0].checksum.is_none() {
        (ChecksumState::PresentButNoChecksum, Some(results[0].id.clone()))
    } else {
        (ChecksumState::PresentWithChecksum, Some(results[0].id.clone()))
    }
}

/// What a scan does with one file.
pub enum HashingAction {
    /// Hash the file and store a new listing for it.
    HashNew,
    /// Hash the file and store the checksum in the listing with this id.
    HashExisting(String),
    /// The file is catalogued with a checksum: leave it.
    Skip,
    /// Nothing to do.
    Nothing,
}

/// The action a scan takes on a file in the given state.
pub open spec fn hashing_action_for(state: (ChecksumState, Option<String>)) -> HashingAction {
    match state {
        (ChecksumState::NotPresent, None) => HashingAction::HashNew,
        (ChecksumState::PresentButNoChecksum, Some(id)) => HashingAction::HashExisting(id),
        (ChecksumState::PresentWithChecksum, Some(_)) => HashingAction::Skip,
        _ => HashingAction::Nothing,
    }
}

/// Decides what a scan does with a file, from what [`is_file_hashed`] told.
pub fn hashing_action(is_hashed: (ChecksumState, Option<String>)) -> (r: HashingAction)
    ensures
        r == hashing_action_for(is_hashed),
{
    match is_hashed {
        (ChecksumState::NotPresent, None) => HashingAction::HashNew,
        (ChecksumState::PresentButNoChecksum, Some(id)) => HashingAction::HashExisting(id),
        (ChecksumState::PresentWithChecksum, Some(_)) => HashingAction::Skip,
        _ => HashingAction::Nothing,
    }
}

/// A scan hashes each file at most once: a path whose latest listing
/// carries a checksum is skipped, and a path with no listing is hashed anew.
pub proof fn lemma_scan_hashes_once(results: Seq<Listing>)
    ensures
        results.len() > 0 && results[0].checksum is Some ==> hashing_action_for(
            checksum_state(results),
        ) == HashingAction::Skip,
        results.len() > 0 && results[0].checksum is None ==> hashing_action_for(
            checksum_state(results),
        ) == HashingAction::HashExisting(results[0].id),
        results.len() == 0 ==> hashing_action_for(checksum_state(results))
            == HashingAction::HashNew,
{
}

// ---------------------------------------------------------------------------
// Reports
// ---------------------------------------------------------------------------

/// The rows of `rows` whose flag in `keep` is set, in order.
pub open spec fn selected<T>(rows: Seq<T>, keep: Seq<bool>) -> Seq<T>
    decreases rows.len(),
{
    if rows.len() == 0 {
        Seq::empty()
    } else if keep[rows.len() - 1] {
        selected(rows.drop_last(), keep).push(rows.last())
    } else {
        selected(rows.drop_last(), keep)
    }
}

/// Keeps the rows whose flag is set, in order.
pub fn select_rows<T>(rows: Vec<T>, keep: &Vec<bool>) -> (r: Vec<T>)
    requires
        keep@.len() == rows@.len(),
    ensures
        r@ == selected(rows@, keep@),
{
    let ghost orig = rows@;
    let n = rows.len();
    let mut kept: Vec<T> = Vec::new();
    let mut i: usize = 0;
    // Walk the rows front to back by taking them off a reversed copy.
    let mut pending = reverse_rows(rows);
    while i < n
        invariant
            n == orig.len(),
            keep@.len() == n,
            i <= n,
            pending@ == orig.skip(i as int).reverse(),
            kept@ == selected(orig.take(i as int), keep@),
        decreases n - i,
    {
        proof {
            assert(orig.skip(i as int).reverse().len() > 0);
        }
        let x = pending.pop().unwrap();
        proof {
            assert(x == orig[i as int]);
            assert(orig.take(i + 1).drop_last() =~= orig.take(i as int));
            assert(pending@ =~= orig.skip(i + 1).reverse());
        }
        if keep[i] {
            kept.push(x);
        }
        i = i + 1;
    }
    proof {
        assert(orig.take(n as int) =~= orig);
    }
    kept
}

proof fn lemma_selected_keeps<T>(rows: Seq<T>, keep: Seq<bool>, i: int)
    requires
        keep.len() >= rows.len(),
        0 <= i < rows.len(),
        keep[i],
    ensures
        selected(rows, keep).contains(rows[i]),
    decreases rows.len(),
{
    let sel = selected(rows, keep);
    if i == rows.len() - 1 {
        assert(sel.last() == rows[i]);
        assert(sel[sel.len() - 1] == rows[i]);
    } else {
        lemma_selected_keeps(rows.drop_last(), keep, i);
        let prev = selected(rows.drop_last(), keep);
        let k = choose|k: int| 0 <= k < prev.len() && prev[k] == rows.drop_last()[i];
        assert(rows.drop_last()[i] == rows[i]);
        if keep[rows.len() - 1] {
            assert(sel == prev.push(rows.last()));
            assert(sel[k] == prev[k]);
        }
        assert(sel[k] == rows[i]);
    }
}

proof fn lemma_selected_only<T>(rows: Seq<T>, keep: Seq<bool>, k: int)
    requires
        keep.len() >= rows.len(),
        0 <= k < selected(rows, keep).len(),
    ensures
        exists|i: int| 0 <= i < rows.len() && keep[i] && selected(rows, keep)[k] == rows[i],
    decreases rows.len(),
{
    let sel = selected(rows, keep);
    let prev = selected(rows.drop_last(), keep);
    let n = rows.len() - 1;
    if keep[n] && k == prev.len() {
        assert(sel[k] == rows[n]);
    } else {
        assert(0 <= k < prev.len());
        assert(sel[k] == prev[k]);
        lemma_selected_only(rows.drop_last(), keep, k);
        let i = choose|i: int| 0 <= i < rows.drop_last().len() && keep[i] && prev[k] == rows.drop_last()[i];
        assert(rows.drop_last()[i] == rows[i]);
    }
}

/// The rows of a report, last row first, or `None` when there are none.
pub open spec fn report<T>(rows: Seq<T>) -> Option<Seq<T>> {
    if rows.len() == 0 {
        None
    } else {
        Some(rows.reverse())
    }
}

/// A report is the rows in reverse order, or nothing exactly when there
/// are no rows: position `k` of the report holds the row `k` places from
/// the end.
pub proof fn lemma_report_reverses<T>(rows: Seq<T>)
    ensures
        report(rows) is None <==> rows.len() == 0,
        report(rows) matches Some(v) ==> v.len() == rows.len() && forall|k: int|
            0 <= k < v.len() ==> #[trigger] v[k] == rows[rows.len() - 1 - k],
{
}

/// The duplicates report holds exactly the listings that share their
/// checksum with another listing, whatever their names, paths or other
/// fields: every listing `i` whose checksum equals that of another listing
/// `j` is reported, and every reported listing is such a listing.
pub proof fn lemma_duplicates_are_matching_checksums(all: Seq<Listing>)
    ensures
        forall|i: int, j: int|
            #![trigger all[i], all[j]]
            0 <= i < all.len() && 0 <= j < all.len() && i != j && all[i].checksum is Some
                && all[j].checksum is Some && all[i].checksum->0@ == all[j].checksum->0@
                ==> duplicates(all).contains(all[i]),
        forall|k: int|
            0 <= k < duplicates(all).len() ==> has_checksum_twin(all, #[trigger] duplicates(all)[k]),
{
    let flags = duplicate_flags(all);
    assert forall|i: int, j: int|
        #![trigger all[i], all[j]]
        0 <= i < all.len() && 0 <= j < all.len() && i != j && all[i].checksum is Some
            && all[j].checksum is Some && all[i].checksum->0@ == all[j].checksum->0@
        implies duplicates(all).contains(all[i]) by {
        assert(shares_checksum(all, i));
        assert(flags[i]);
        lemma_selected_keeps(all, flags, i);
    }
    assert forall|k: int| 0 <= k < duplicates(all).len() implies has_checksum_twin(
        all,
        #[trigger] duplicates(all)[k],
    ) by {
        lemma_selected_only(all, flags, k);
        let i = choose|i: int| 0 <= i < all.len() && flags[i] && selected(all, flags)[k] == all[i];
        assert(flags[i] == shares_checksum(all, i));
        assert(shares_checksum(all, i));
        let j = choose|j: int|
            0 <= j < all.len() && j != i && (#[trigger] all[j]).checksum is Some
                && all[j].checksum->0@ == all[i].checksum->0@;
        assert(duplicates(all)[k] == all[i]);
        assert(0 <= i < all.len() && 0 <= j < all.len() && i != j && all[i].checksum is Some
            && all[j].checksum is Some && all[i].checksum->0@ == all[j].checksum->0@
            && duplicates(all)[k] == all[i]);
    }
}

/// `x` is one of the listings whose file is gone.
pub open spec fn is_gone_listing(listings: Seq<Listing>, present: Seq<bool>, x: Listing) -> bool {
    exists|i: int| 0 <= i < listings.len() && !present[i] && x == #[trigger] listings[i]
}

/// `x` is a listing of `all` whose checksum another listing of `all`
/// carries too.
pub open spec fn has_checksum_twin(all: Seq<Listing>, x: Listing) -> bool {
    exists|i: int, j: int|
        #![trigger all[i], all[j]]
        0 <= i < all.len() && 0 <= j < all.len() && i != j && all[i].checksum is Some
            && all[j].checksum is Some && all[i].checksum->0@ == all[j].checksum->0@ && x == all[i]
}

/// The orphan report holds exactly the listings whose file is gone: every
/// listing `i` with `present[i]` false is reported, every reported listing
/// is such a listing, and there are as many as there are false flags.
pub proof fn lemma_missing_are_the_gone_files(listings: Seq<Listing>, present: Seq<bool>)
    requires
        present.len() == listings.len(),
    ensures
        forall|i: int|
            0 <= i < listings.len() && !present[i] ==> missing(listings, present).contains(
                #[trigger] listings[i],
            ),
        forall|k: int|
            0 <= k < missing(listings, present).len() ==> is_gone_listing(
                listings,
                present,
                #[trigger] missing(listings, present)[k],
            ),
        missing(listings, present).len() == present.filter(|b: bool| !b).len(),
{
    let flags = gone_flags(present);
    assert forall|i: int| 0 <= i < listings.len() && !present[i] implies missing(
        listings,
        present,
    ).contains(#[trigger] listings[i]) by {
        lemma_selected_keeps(listings, flags, i);
    }
    assert forall|k: int| 0 <= k < missing(listings, present).len() implies is_gone_listing(
        listings,
        present,
        #[trigger] missing(listings, present)[k],
    ) by {
        lemma_selected_only(listings, flags, k);
        let i = choose|i: int| 0 <= i < listings.len() && flags[i] && selected(listings, flags)[k] == listings[i];
        assert(flags[i] == !present[i]);
        assert(missing(listings, present)[k] == listings[i]);
        assert(0 <= i < listings.len() && !present[i] && missing(listings, present)[k] == listings[i]);
    }
    lemma_missing_count(listings, present, listings.len() as int);
    assert(listings.take(listings.len() as int) =~= listings);
    assert(present.take(present.len() as int) =~= present);
}

proof fn lemma_missing_count(listings: Seq<Listing>, present: Seq<bool>, m: int)
    requires
        present.len() == listings.len(),
        0 <= m <= listings.len(),
    ensures
        selected(listings.take(m), gone_flags(present)).len() == present.take(m).filter(
            |b: bool| !b,
        ).len(),
    decreases m,
{
    let flags = gone_flags(present);
    reveal_with_fuel(Seq::filter, 1);
    if m == 0 {
        assert(listings.take(0) =~= Seq::<Listing>::empty());
        assert(present.take(0) =~= Seq::<bool>::empty());
    } else {
        lemma_missing_count(listings, present, m - 1);
        assert(listings.take(m).drop_last() =~= listings.take(m - 1));
        assert(present.take(m).drop_last() =~= present.take(m - 1));
        assert(present.take(m).last() == present[m - 1]);
        assert(flags[m - 1] == !present[m - 1]);
    }
}

/// Listing `i` of `all` has a checksum that another listing of `all` shares.
pub open spec fn shares_checksum(all: Seq<Listing>, i: int) -> bool {
    &&& all[i].checksum is Some
    &&& exists|j: int|
        0 <= j < all.len() && j != i && (#[trigger] all[j]).checksum is Some
            && all[j].checksum->0@ == all[i].checksum->0@
}

/// For each listing of `all`, whether another listing shares its checksum.
pub open spec fn duplicate_flags(all: Seq<Listing>) -> Seq<bool> {
    Seq::new(all.len(), |i: int| shares_checksum(all, i))
}

/// The listings of `all`, in order, whose checksum another listing shares.
pub open spec fn duplicates(all: Seq<Listing>) -> Seq<Listing> {
    selected(all, duplicate_flags(all))
}

/// Whether listing `i` shares its checksum with another listing.
fn has_duplicate(all: &Vec<Listing>, i: usize) -> (r: bool)
    requires
        i < all@.len(),
    ensures
        r == shares_checksum(all@, i as int),
{
    match &all[i].checksum {
        None => false,
        Some(mine) => {
            let n = all.len();
            let mut found = false;
            for j in 0..n
                invariant
                    n == all@.len(),
                    i < n,
                    all@[i as int].checksum == Some(*mine),
                    found <==> exists|k: int|
                        0 <= k < j && k != i && (#[trigger] all@[k]).checksum is Some
                            && all@[k].checksum->0@ == mine@,
            {
                let ghost before = found;
                if j != i {
                    match &all[j].checksum {
                        Some(other) => {
                            let same = other.eq(mine);
                            if same {
                                found = true;
                            }
                            proof {
                                assert(all@[j as int].checksum == Some(*other));
                                assert(same == (other@ == mine@));
                            }
                        },
                        None => {},
                    }
                }
                proof {
                    let k = j as int;
                    assert(all@[k] == all[k]);
                    if found && !before {
                        assert(0 <= k < j + 1 && k != i && all@[k].checksum is Some
                            && all@[k].checksum->0@ == mine@);
                    }
                }
            }
            found
        },
    }
}

/// The duplicate files: every listing whose checksum matches that of
/// another listing, last one first; `None` when no two listings match.
pub fn find_duplicates(all: Vec<Listing>) -> (r: Option<Vec<Listing>>)
    ensures
        r is None <==> report(duplicates(all@)) is None,
        r matches Some(v) ==> report(duplicates(all@)) == Some(v@),
        r is None <==> duplicates(all@).len() == 0,
        r matches Some(v) ==> v@ == duplicates(all@).reverse(),
        r is Some <==> exists|i: int, j: int|
            #![trigger all@[i], all@[j]]
            0 <= i < all@.len() && 0 <= j < all@.len() && i != j && all@[i].checksum is Some
                && all@[j].checksum is Some && all@[i].checksum->0@ == all@[j].checksum->0@,
{
    proof {
        let a = all@;
        lemma_duplicates_are_matching_checksums(a);
        if duplicates(a).len() > 0 {
            assert(has_checksum_twin(a, duplicates(a)[0]));
            let (i, j) = choose|i: int, j: int|
                #![trigger a[i], a[j]]
                0 <= i < a.len() && 0 <= j < a.len() && i != j && a[i].checksum is Some
                    && a[j].checksum is Some && a[i].checksum->0@ == a[j].checksum->0@
                    && duplicates(a)[0] == a[i];
            assert(a[i] == a[i] && a[j] == a[j]);
        } else {
            assert forall|i: int, j: int|
                #![trigger a[i], a[j]]
                0 <= i < a.len() && 0 <= j < a.len() && i != j && a[i].checksum is Some
                    && a[j].checksum is Some implies a[i].checksum->0@ != a[j].checksum->0@ by {
                if a[i].checksum->0@ == a[j].checksum->0@ {
                    assert(duplicates(a).contains(a[i]));
                }
            }
        }
    }
    let ghost orig = all@;
    let n = all.len();
    let mut flags: Vec<bool> = Vec::new();
    for i in 0..n
        invariant
            n == all@.len(),
            all@ == orig,
            flags@.len() == i,
            forall|k: int| 0 <= k < i ==> flags@[k] == shares_checksum(orig, k),
    {
        let d = has_duplicate(&all, i);
        flags.push(d);
    }
    proof {
        assert(flags@ =~= duplicate_flags(orig));
    }
    let rows = select_rows(all, &flags);
    if rows.len() == 0 {
        None
    } else {
        Some(reverse_rows(rows))
    }
}

/// The applied tags found by the tagged-listings query, last row first;
/// `None` when the query found none.
pub fn find_tagged_listings(rows: Vec<AppliedTag>) -> (r: Option<Vec<AppliedTag>>)
    ensures
        r is None <==> report(rows@) is None,
        r matches Some(v) ==> report(rows@) == Some(v@),
        r is None <==> rows@.len() == 0,
        r matches Some(v) ==> v@ == rows@.reverse(),
{
    if rows.len() == 0 {
        None
    } else {
        Some(reverse_rows(rows))
    }
}

/// The listings, in order, whose file is no longer on disk: `present[i]`
/// tells whether the file of `listings[i]` (its path unescaped) exists.
pub open spec fn missing(listings: Seq<Listing>, present: Seq<bool>) -> Seq<Listing> {
    selected(listings, gone_flags(present))
}

/// For each file, whether it is gone.
pub open spec fn gone_flags(present: Seq<bool>) -> Seq<bool> {
    Seq::new(present.len(), |i: int| !present[i])
}

/// The listings whose file is gone, in the order of the query; `None` when
/// every file is still there.
pub fn find_missing(listings: Vec<Listing>, present: &Vec<bool>) -> (r: Option<Vec<Listing>>)
    requires
        present@.len() == listings@.len(),
    ensures
        r is None <==> missing(listings@, present@).len() == 0,
        r matches Some(v) ==> v@ == missing(listings@, present@),
        r is None <==> forall|i: int| 0 <= i < present@.len() ==> #[trigger] present@[i],
{
    proof {
        lemma_missing_are_the_gone_files(listings@, present@);
        if missing(listings@, present@).len() > 0 {
            assert(is_gone_listing(listings@, present@, missing(listings@, present@)[0]));
            let i = choose|i: int|
                0 <= i < listings@.len() && !present@[i] && missing(listings@, present@)[0]
                    == #[trigger] listings@[i];
            assert(!present@[i]);
        } else {
            assert forall|i: int| 0 <= i < present@.len() implies #[trigger] present@[i] by {
                if !present@[i] {
                    assert(missing(listings@, present@).contains(listings@[i]));
                }
            }
        }
    }
    let n = present.len();
    let mut gone: Vec<bool> = Vec::new();
    for i in 0..n
        invariant
            n == present@.len(),
            gone@.len() == i,
            forall|k: int| 0 <= k < i ==> gone@[k] == !present@[k],
    {
        gone.push(!present[i]);
    }
    proof {
        assert(gone@ =~= gone_flags(present@));
    }
    let kept = select_rows(listings, &gone);
    if kept.len() == 0 {
        None
    } else {
        Some(kept)
    }
}

} // verus!
