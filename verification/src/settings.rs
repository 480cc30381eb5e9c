//! The options of a run, and how their texts are read.

use crate::dsn::{parse_url, url_parts, UrlParts};
use crate::error::ApiError;
use crate::text::{fields, first_index, parse_u64, parse_u8, parse_unsigned, split, split_once, texts};
use vstd::prelude::*;

verus! {

/// How many storage objects one write holds where the options say nothing.
pub const DEFAULT_READ_CHUNK: u64 = 1_000;

/// The first shard of a run where the options say nothing.
pub const DEFAULT_START_BSO: u8 = 0;

/// The shard at which a run ends where the options say nothing.
pub const DEFAULT_END_BSO: u8 = 19;

/// The most rows to move where the options say nothing.
pub const DEFAULT_CHUNK_SIZE: u64 = 1_500_000;

/// The number of users to pass over where the options say nothing.
pub const DEFAULT_OFFSET: u64 = 0;

/// The size of the pool of destination sessions where the options say nothing.
pub const DEFAULT_SPANNER_POOL_SIZE: usize = 32;

/// A copy of an optional text.
pub fn clone_text(text: &Option<String>) -> (copy: Option<String>)
    ensures
        copy == *text,
{
    match text {
        Some(t) => Some(t.clone()),
        None => None,
    }
}

/// A copy of a list of texts.
pub fn clone_texts(list: &Vec<String>) -> (copy: Vec<String>)
    ensures
        copy@ == list@,
{
    let mut copy: Vec<String> = Vec::new();
    let mut i: usize = 0;
    while i < list.len()
        invariant
            i <= list.len(),
            copy@ == list@.take(i as int),
        decreases list.len() - i,
    {
        copy.push(list[i].clone());
        assert(copy@ =~= list@.take(i + 1));
        i = i + 1;
    }
    assert(list@.take(list.len() as int) =~= list@);
    copy
}

/// The text before the first colon of an option, where it has one.
pub open spec fn before_colon(raw: Seq<char>) -> Seq<char> {
    raw.take(first_index(raw, ':'))
}

/// The text behind the first colon of an option, where it has one.
pub open spec fn after_colon(raw: Seq<char>) -> Seq<char> {
    raw.skip(first_index(raw, ':') + 1)
}

/// Whether an option holds a colon.
pub open spec fn has_colon(raw: Seq<char>) -> bool {
    first_index(raw, ':') < raw.len()
}

/// Where the source and the destination are to be found.
#[derive(Debug, PartialEq, Eq)]
pub struct Dsns {
    pub mysql: Option<String>,
    pub spanner: Option<String>,
}

impl Clone for Dsns {
    fn clone(&self) -> (copy: Self)
        ensures
            copy == *self,
    {
        Dsns { mysql: clone_text(&self.mysql), spanner: clone_text(&self.spanner) }
    }
}

impl Default for Dsns {
    /// Neither location is known.
    fn default() -> (dsns: Self)
        ensures
            dsns.mysql is None,
            dsns.spanner is None,
    {
        Dsns { mysql: None, spanner: None }
    }
}

/// What a [`Dsns`] holds, as mathematical values.
pub struct DsnsView {
    pub mysql: Option<Seq<char>>,
    pub spanner: Option<Seq<char>>,
}

impl View for Dsns {
    type V = DsnsView;

    open spec fn view(&self) -> DsnsView {
        DsnsView {
            mysql: match self.mysql {
                Some(location) => Some(location@),
                None => None,
            },
            spanner: match self.spanner {
                Some(location) => Some(location@),
                None => None,
            },
        }
    }
}

/// The locations after one more line that is a URL: a line with the scheme `mysql` is the
/// source from now on, one with the scheme `spanner` the destination, and any other line
/// changes nothing.
pub open spec fn assigned(dsns: DsnsView, scheme: Seq<char>, line: Seq<char>) -> DsnsView {
    if scheme == "mysql"@ {
        DsnsView { mysql: Some(line), spanner: dsns.spanner }
    } else if scheme == "spanner"@ {
        DsnsView { mysql: dsns.mysql, spanner: Some(line) }
    } else {
        dsns
    }
}

/// The locations that the lines of a file of locations give, read from the first line on.
/// The first line that is not a URL ends the reading with an error.
pub open spec fn located(lines: Seq<Seq<char>>) -> Result<DsnsView, ApiError>
    decreases lines.len(),
{
    if lines.len() == 0 {
        Ok(DsnsView { mysql: None, spanner: None })
    } else {
        match located(lines.drop_last()) {
            Err(e) => Err(e),
            Ok(dsns) => match url_parts(lines.last()) {
                None => Err(ApiError::InvalidDsn),
                Some(parts) => Ok(assigned(dsns, parts.scheme, lines.last())),
            },
        }
    }
}

/// An error in the lines read so far is the error of the whole reading.
pub proof fn lemma_located_prefix(lines: Seq<Seq<char>>, k: int)
    requires
        0 <= k <= lines.len(),
        located(lines.take(k)) is Err,
    ensures
        located(lines) == located(lines.take(k)),
    decreases lines.len(),
{
    if k == lines.len() {
        assert(lines.take(k) =~= lines);
    } else {
        assert(lines.drop_last().take(k) =~= lines.take(k));
        lemma_located_prefix(lines.drop_last(), k);
    }
}

impl Dsns {
    /// Takes one more line, whose URL has the given parts, into the locations.
    pub fn assign(&mut self, parts: &UrlParts, line: &str)
        ensures
            final(self)@ == assigned(old(self)@, parts.scheme@, line@),
    {
        if parts.scheme == "mysql".to_owned() {
            self.mysql = Some(line.to_owned());
        } else if parts.scheme == "spanner".to_owned() {
            self.spanner = Some(line.to_owned());
        }
    }

    /// Reads the locations from the lines of a file of locations.
    pub fn from_lines(lines: &Vec<String>) -> (r: Result<Dsns, ApiError>)
        ensures
            match r {
                Ok(dsns) => located(texts(lines@)) == Ok::<DsnsView, ApiError>(dsns@),
                Err(e) => located(texts(lines@)) == Err::<DsnsView, ApiError>(e),
            },
    {
        let mut dsns = Dsns::default();
        let mut i: usize = 0;
        assert(texts(lines@).take(0) =~= Seq::<Seq<char>>::empty());
        while i < lines.len()
            invariant
                i <= lines.len(),
                located(texts(lines@).take(i as int)) == Ok::<DsnsView, ApiError>(dsns@),
            decreases lines.len() - i,
        {
            let ghost next = texts(lines@).take(i + 1);
            proof {
                assert(next.drop_last() =~= texts(lines@).take(i as int));
                assert(next.last() == lines[i as int]@);
                if located(next) is Err {
                    lemma_located_prefix(texts(lines@), i + 1);
                }
            }
            match parse_url(lines[i].as_str()) {
                Err(_) => {
                    return Err(ApiError::InvalidDsn);
                },
                Ok(parts) => {
                    dsns.assign(&parts, lines[i].as_str());
                },
            }
            i = i + 1;
        }
        assert(texts(lines@).take(lines.len() as int) =~= texts(lines@));
        Ok(dsns)
    }
}

/// The users that the options name one by one, and the shard that holds them.
#[derive(Debug, PartialEq, Eq)]
pub struct Users {
    pub bso: u8,
    pub user_ids: Vec<String>,
}

/// What a [`Users`] holds, as mathematical values.
pub struct UsersView {
    pub bso: u8,
    pub user_ids: Seq<Seq<char>>,
}

impl View for Users {
    type V = UsersView;

    open spec fn view(&self) -> UsersView {
        UsersView { bso: self.bso, user_ids: texts(self.user_ids@) }
    }
}

impl Clone for Users {
    fn clone(&self) -> (copy: Self)
        ensures
            copy@ == self@,
            copy.user_ids@ == self.user_ids@,
    {
        Users { bso: self.bso, user_ids: clone_texts(&self.user_ids) }
    }
}

impl Users {
    /// What the option `raw` says: a shard number, a colon, and user ids with commas between
    /// them.
    pub open spec fn parsed(raw: Seq<char>) -> Result<UsersView, ApiError> {
        if !has_colon(raw) {
            Err(ApiError::MissingColon)
        } else {
            match parse_unsigned(before_colon(raw), u8::MAX as nat) {
                None => Err(ApiError::InvalidBso),
                Some(bso) => Ok(UsersView { bso: bso as u8, user_ids: fields(after_colon(raw), ',') }),
            }
        }
    }

    /// Reads the option that names users one by one.
    pub fn from_str(raw: &str) -> (r: Result<Users, ApiError>)
        ensures
            match r {
                Ok(users) => Users::parsed(raw@) == Ok::<UsersView, ApiError>(users@),
                Err(e) => Users::parsed(raw@) == Err::<UsersView, ApiError>(e),
            },
    {
        match split_once(raw, ':') {
            None => Err(ApiError::MissingColon),
            Some((head, tail)) => match parse_u8(head.as_str()) {
                None => Err(ApiError::InvalidBso),
                Some(bso) => Ok(Users { bso, user_ids: split(tail.as_str(), ',') }),
            },
        }
    }
}

/// After how many users of which shard a run is to be broken off.
#[derive(Clone, Copy, Debug, PartialEq, Eq)]
pub struct Abort {
    pub bso: u8,
    pub count: u64,
}

impl Abort {
    /// What the option `raw` says: a shard number, a colon, and a count.
    pub open spec fn parsed(raw: Seq<char>) -> Result<Abort, ApiError> {
        if !has_colon(raw) {
            Err(ApiError::MissingColon)
        } else {
            match parse_unsigned(before_colon(raw), u8::MAX as nat) {
                None => Err(ApiError::InvalidBso),
                Some(bso) => match parse_unsigned(after_colon(raw), u64::MAX as nat) {
                    None => Err(ApiError::InvalidNumber),
                    Some(count) => Ok(Abort { bso: bso as u8, count: count as u64 }),
                },
            }
        }
    }

    /// Reads the option that breaks a run off.
    pub fn from_str(raw: &str) -> (r: Result<Abort, ApiError>)
        ensures
            r == Abort::parsed(raw@),
    {
        match split_once(raw, ':') {
            None => Err(ApiError::MissingColon),
            Some((head, tail)) => match parse_u8(head.as_str()) {
                None => Err(ApiError::InvalidBso),
                Some(bso) => match parse_u64(tail.as_str()) {
                    None => Err(ApiError::InvalidNumber),
                    Some(count) => Ok(Abort { bso, count }),
                },
            },
        }
    }
}

/// Two numbers with a colon between them, as several options have them.
pub open spec fn parsed_pair(raw: Seq<char>) -> Result<(u64, u64), ApiError> {
    if !has_colon(raw) {
        Err(ApiError::MissingColon)
    } else {
        match (
            parse_unsigned(before_colon(raw), u64::MAX as nat),
            parse_unsigned(after_colon(raw), u64::MAX as nat),
        ) {
            (Some(left), Some(right)) => Ok((left as u64, right as u64)),
            _ => Err(ApiError::InvalidNumber),
        }
    }
}

/// Reads two numbers with a colon between them.
fn pair_from_str(raw: &str) -> (r: Result<(u64, u64), ApiError>)
    ensures
        r == parsed_pair(raw@),
{
    match split_once(raw, ':') {
        None => Err(ApiError::MissingColon),
        Some((head, tail)) => match parse_u64(head.as_str()) {
            None => Err(ApiError::InvalidNumber),
            Some(left) => match parse_u64(tail.as_str()) {
                None => Err(ApiError::InvalidNumber),
                Some(right) => Ok((left, right)),
            },
        },
    }
}

/// A stretch of the list of users: how many to pass over, and how many to take.
#[derive(Clone, Copy, Debug, PartialEq, Eq)]
pub struct UserRange {
    pub offset: u64,
    pub limit: u64,
}

impl UserRange {
    /// What the option `raw` says: an offset, a colon, and a limit.
    pub open spec fn parsed(raw: Seq<char>) -> Result<UserRange, ApiError> {
        match parsed_pair(raw) {
            Ok((offset, limit)) => Ok(UserRange { offset, limit }),
            Err(e) => Err(e),
        }
    }

    /// Reads the option that names a stretch of the users.
    pub fn from_str(raw: &str) -> (r: Result<UserRange, ApiError>)
        ensures
            r == UserRange::parsed(raw@),
    {
        match pair_from_str(raw) {
            Ok((offset, limit)) => Ok(UserRange { offset, limit }),
            Err(e) => Err(e),
        }
    }
}

/// The size of a bucket of users: the given percentage of the users, rounded to the nearest
/// whole number (a half goes up), and at least 1.
pub open spec fn chunk_size(total: nat, percentage: nat) -> nat {
    let rounded = (total * percentage + 50) / 100;
    if rounded < 1 {
        1
    } else {
        rounded
    }
}

/// The number of buckets: the number of users divided by the size of a bucket, rounded up.
pub open spec fn chunk_count(total: nat, percentage: nat) -> nat {
    let size = chunk_size(total, percentage);
    ((total + size - 1) / (size as int)) as nat
}

/// Where the window of bucket `chunk` starts in the list of users. Buckets count from 1:
/// there is no bucket 0, and what is given for it here, the start of the list, is the window
/// of no bucket.
pub open spec fn window_start(total: nat, percentage: nat, chunk: nat) -> nat {
    let index = if chunk == 0 {
        0
    } else {
        chunk - 1
    };
    (index * chunk_size(total, percentage)) as nat
}

/// Where the window of bucket `chunk` ends in the list of users: as many users behind its
/// start as there are buckets, and never behind the last user. Where the buckets do not
/// divide the users evenly, the last bucket, and each one behind it, ends with the last user.
pub open spec fn window_end(total: nat, percentage: nat, chunk: nat) -> nat {
    let size = chunk_size(total, percentage);
    let count = chunk_count(total, percentage);
    let reach = window_start(total, percentage, chunk) + count;
    if size * count > total && chunk + 1 > count {
        total
    } else if reach < total {
        reach
    } else {
        total
    }
}

/// The product of a quotient and the divisor does not exceed what was divided.
proof fn lemma_quotient_bound(a: int, b: int)
    by (nonlinear_arith)
    requires
        0 <= a,
        0 < b,
    ensures
        0 <= (a / b) * b <= a,
        0 <= a / b <= a,
{
}

/// A product of two factors is at most the product of their bounds.
proof fn lemma_product_bound(a: int, b: int, x: int, y: int)
    by (nonlinear_arith)
    requires
        0 <= a <= x,
        0 <= b <= y,
    ensures
        0 <= a * b <= x * y,
{
}

/// One of several buckets of the users of a shard: which one, and how large each one is, as
/// a percentage of the users.
#[derive(Clone, Copy, Debug, PartialEq, Eq)]
pub struct UserPercent {
    pub chunk: u64,
    pub percentage: u64,
}

impl UserPercent {
    /// What the option `raw` says: a bucket, a colon, and a percentage.
    pub open spec fn parsed(raw: Seq<char>) -> Result<UserPercent, ApiError> {
        match parsed_pair(raw) {
            Ok((chunk, percentage)) => Ok(UserPercent { chunk, percentage }),
            Err(e) => Err(e),
        }
    }

    /// Reads the option that names a bucket of the users.
    pub fn from_str(raw: &str) -> (r: Result<UserPercent, ApiError>)
        ensures
            r == UserPercent::parsed(raw@),
    {
        match pair_from_str(raw) {
            Ok((chunk, percentage)) => Ok(UserPercent { chunk, percentage }),
            Err(e) => Err(e),
        }
    }

    /// Where the window of this bucket starts among `total` users.
    pub open spec fn start(self, total: nat) -> nat {
        window_start(total, self.percentage as nat, self.chunk as nat)
    }

    /// Where the window of this bucket ends among `total` users.
    pub open spec fn end(self, total: nat) -> nat {
        window_end(total, self.percentage as nat, self.chunk as nat)
    }

    /// Whether this is a bucket with a window among `total` users: buckets count from 1, and
    /// the window of a bucket does not start behind its end.
    pub open spec fn has_window(self, total: nat) -> bool {
        self.chunk >= 1 && self.start(total) <= self.end(total)
    }

    /// The users of this bucket: those of `users` from the start of its window up to the end
    /// of it. Bucket 0 is no bucket, and a bucket whose window would start behind its end has
    /// no window.
    pub fn get_percentage(&self, users: Vec<u64>) -> (r: Result<Vec<u64>, ApiError>)
        ensures
            match r {
                Ok(window) => {
                    &&& self.has_window(users@.len())
                    &&& window@ == users@.subrange(
                        self.start(users@.len()) as int,
                        self.end(users@.len()) as int,
                    )
                },
                Err(e) => e == ApiError::ChunkOutOfRange && !self.has_window(users@.len()),
            },
    {
        if self.chunk == 0 {
            return Err(ApiError::ChunkOutOfRange);
        }
        let total: u128 = users.len() as u128;
        let percentage: u128 = self.percentage as u128;
        let ghost n = users@.len();
        proof {
            lemma_product_bound(
                total as int,
                percentage as int,
                0xffff_ffff_ffff_ffff,
                0xffff_ffff_ffff_ffff,
            );
        }
        let rounded: u128 = (total * percentage + 50) / 100;
        let size: u128 = if rounded < 1 {
            1
        } else {
            rounded
        };
        assert(size == chunk_size(n, self.percentage as nat));
        let count: u128 = (total + size - 1) / size;
        assert(count == chunk_count(n, self.percentage as nat));
        proof {
            lemma_quotient_bound(total + size - 1, size as int);
            assert(size * count == count * size) by (nonlinear_arith);
        }
        let uneven: bool = size * count > total;
        let index: u128 = (self.chunk - 1) as u128;
        if index > 0 && size > total {
            proof {
                lemma_product_bound(1, size as int, index as int, size as int);
            }
            return Err(ApiError::ChunkOutOfRange);
        }
        let start: u128 = if index == 0 {
            0
        } else {
            proof {
                lemma_product_bound(
                    index as int,
                    size as int,
                    0xffff_ffff_ffff_ffff,
                    0xffff_ffff_ffff_ffff,
                );
            }
            index * size
        };
        assert(start == self.start(n)) by {
            assert(0 * size == 0) by (nonlinear_arith);
        }
        if start > total {
            return Err(ApiError::ChunkOutOfRange);
        }
        let end: u128 = if uneven && self.chunk as u128 + 1 > count {
            total
        } else if start + count < total {
            start + count
        } else {
            total
        };
        assert(end == self.end(n));
        let first: usize = start as usize;
        let last: usize = end as usize;
        let mut window: Vec<u64> = Vec::new();
        let mut i: usize = first;
        while i < last
            invariant
                first <= i <= last <= users.len(),
                window@ == users@.subrange(first as int, i as int),
            decreases last - i,
        {
            window.push(users[i]);
            assert(window@ =~= users@.subrange(first as int, i + 1));
            i = i + 1;
        }
        Ok(window)
    }
}

/// Whether the user at position `i` lies in the window of bucket `chunk`.
pub open spec fn in_window(total: nat, percentage: nat, chunk: nat, i: int) -> bool {
    window_start(total, percentage, chunk) <= i < window_end(total, percentage, chunk)
}

/// Whether the user at position `i` lies in the window of one of the buckets `1` to
/// `chunk_count`.
pub open spec fn covered(total: nat, percentage: nat, i: int) -> bool {
    exists|chunk: nat|
        1 <= chunk <= chunk_count(total, percentage) && #[trigger] in_window(
            total,
            percentage,
            chunk,
            i,
        )
}

/// The lists of users and percentages whose buckets lie side by side: an empty list, one
/// with as many buckets as a bucket has users, and one with a single bucket that is larger
/// than the list.
pub open spec fn buckets_tile(total: nat, percentage: nat) -> bool {
    let size = chunk_size(total, percentage);
    let count = chunk_count(total, percentage);
    total == 0 || count == size || (count == 1 && size > total)
}

/// Rounding a quotient up: the buckets reach the last user, and one bucket fewer would not.
proof fn lemma_rounded_up(total: nat, size: nat)
    requires
        size > 0,
    ensures
        ({
            let count = (total + size - 1) / (size as int);
            &&& count >= 0
            &&& count * size >= total
            &&& total > 0 ==> (count - 1) * size < total
            &&& total > 0 ==> count >= 1
        }),
{
    let a = total + size - 1;
    let count = a / (size as int);
    vstd::arithmetic::div_mod::lemma_fundamental_div_mod(a, size as int);
    vstd::arithmetic::div_mod::lemma_mod_pos_bound(a, size as int);
    assert(a == size * count + a % (size as int));
    assert(size * count == count * size) by (nonlinear_arith);
    assert((count - 1) * size == count * size - size) by (nonlinear_arith);
    if count < 0 {
        assert(count * size <= -1 * size) by (nonlinear_arith)
            requires
                count <= -1,
                size > 0,
        ;
    }
    if total > 0 && count < 1 {
        assert(count * size <= 0) by (nonlinear_arith)
            requires
                count <= 0,
                size > 0,
        ;
    }
}

/// Where the windows lie when there are as many buckets as a bucket has users: each but the
/// last is as long as a bucket, and the last ends with the last user.
proof fn lemma_square_windows(total: nat, percentage: nat, chunk: nat)
    requires
        total > 0,
        chunk_count(total, percentage) == chunk_size(total, percentage),
        1 <= chunk <= chunk_count(total, percentage),
    ensures
        window_start(total, percentage, chunk) == (chunk - 1) * chunk_size(total, percentage),
        window_end(total, percentage, chunk) == if chunk < chunk_count(total, percentage) {
            chunk * chunk_size(total, percentage)
        } else {
            total
        },
        chunk * chunk_size(total, percentage) <= total || chunk == chunk_count(
            total,
            percentage,
        ),
{
    let size = chunk_size(total, percentage);
    let count = chunk_count(total, percentage);
    lemma_rounded_up(total, size);
    let start = (chunk - 1) * size;
    assert(start >= 0) by (nonlinear_arith)
        requires
            chunk >= 1,
            size >= 0,
            start == (chunk - 1) * size,
    ;
    assert(start + size == chunk * size) by (nonlinear_arith)
        requires
            start == (chunk - 1) * size,
    ;
    if chunk < count {
        assert(chunk * size <= (count - 1) * size) by (nonlinear_arith)
            requires
                chunk <= count - 1,
                size >= 0,
        ;
    } else {
        assert(count * size == size * count) by (nonlinear_arith);
    }
}

/// The buckets cover the users exactly, where they lie side by side: every user is in the
/// window of one of the buckets `1` to `chunk_count`, in no two of them, and no window
/// reaches beyond the users.
pub proof fn lemma_buckets_cover(total: nat, percentage: nat)
    requires
        buckets_tile(total, percentage),
    ensures
        forall|i: int| 0 <= i < total ==> #[trigger] covered(total, percentage, i),
        forall|a: nat, b: nat, i: int|
            1 <= a <= chunk_count(total, percentage) && 1 <= b <= chunk_count(total, percentage)
                && #[trigger] in_window(total, percentage, a, i) && #[trigger] in_window(
                total,
                percentage,
                b,
                i,
            ) ==> a == b,
        forall|chunk: nat, i: int|
            1 <= chunk <= chunk_count(total, percentage) && #[trigger] in_window(
                total,
                percentage,
                chunk,
                i,
            ) ==> 0 <= i < total,
{
    let size = chunk_size(total, percentage);
    let count = chunk_count(total, percentage);
    lemma_rounded_up(total, size);
    if total == 0 {
    } else if count == size {
        assert forall|i: int| 0 <= i < total implies #[trigger] covered(total, percentage, i) by {
            let q = i / (size as int);
            vstd::arithmetic::div_mod::lemma_fundamental_div_mod(i, size as int);
            vstd::arithmetic::div_mod::lemma_mod_pos_bound(i, size as int);
            assert(size * q == q * size) by (nonlinear_arith);
            assert(0 <= q < count) by (nonlinear_arith)
                requires
                    0 <= i < total,
                    total <= count * size,
                    size > 0,
                    q * size <= i,
                    i < q * size + size,
            ;
            let chunk = (q + 1) as nat;
            lemma_square_windows(total, percentage, chunk);
            assert((chunk - 1) * size == q * size);
            assert(chunk * size == q * size + size) by (nonlinear_arith)
                requires
                    chunk == q + 1,
            ;
            assert(in_window(total, percentage, chunk, i));
        }
        assert forall|a: nat, b: nat, i: int|
            1 <= a <= count && 1 <= b <= count && #[trigger] in_window(total, percentage, a, i)
                && #[trigger] in_window(total, percentage, b, i) implies a == b by {
            lemma_square_windows(total, percentage, a);
            lemma_square_windows(total, percentage, b);
            if a < b {
                assert(a * size <= (b - 1) * size) by (nonlinear_arith)
                    requires
                        a <= b - 1,
                        size >= 0,
                ;
            }
            if b < a {
                assert(b * size <= (a - 1) * size) by (nonlinear_arith)
                    requires
                        b <= a - 1,
                        size >= 0,
                ;
            }
        }
        assert forall|chunk: nat, i: int|
            1 <= chunk <= count && #[trigger] in_window(total, percentage, chunk, i) implies 0 <= i
            < total by {
            lemma_square_windows(total, percentage, chunk);
            assert((chunk - 1) * size >= 0) by (nonlinear_arith)
                requires
                    chunk >= 1,
                    size >= 0,
            ;
        }
    } else {
        assert(size * count == size) by (nonlinear_arith)
            requires
                count == 1,
        ;
        assert(0 * size == 0) by (nonlinear_arith);
        assert(window_start(total, percentage, 1) == 0);
        assert(window_end(total, percentage, 1) == total);
        assert forall|i: int| 0 <= i < total implies #[trigger] covered(total, percentage, i) by {
            assert(in_window(total, percentage, 1, i));
        }
    }
}

/// Whether the user at position `i` lies in the windows of two of the buckets `1` to
/// `chunk_count`.
pub open spec fn covered_twice(total: nat, percentage: nat, i: int) -> bool {
    exists|a: nat, b: nat|
        1 <= a < b <= chunk_count(total, percentage) && #[trigger] in_window(
            total,
            percentage,
            a,
            i,
        ) && #[trigger] in_window(total, percentage, b, i)
}

/// Whether the buckets fail the user at position `i`: the user is in no window, or in two.
pub open spec fn missed(total: nat, percentage: nat, i: int) -> bool {
    0 <= i < total && (!covered(total, percentage, i) || covered_twice(total, percentage, i))
}

/// The buckets do not cover the users exactly on any other list: where the buckets do not
/// lie side by side, some user is in no window, or in two.
pub proof fn lemma_buckets_miss(total: nat, percentage: nat)
    requires
        !buckets_tile(total, percentage),
    ensures
        exists|i: int| missed(total, percentage, i),
{
    let size = chunk_size(total, percentage);
    let count = chunk_count(total, percentage);
    lemma_rounded_up(total, size);
    assert(0 * size == 0) by (nonlinear_arith);
    assert(1 * size == size) by (nonlinear_arith);
    assert(window_start(total, percentage, 1) == 0);
    assert(window_start(total, percentage, 2) == size);
    if count == 1 {
        assert(count * size == size) by (nonlinear_arith)
            requires
                count == 1,
        ;
        assert(size * count == size) by (nonlinear_arith)
            requires
                count == 1,
        ;
        assert(window_end(total, percentage, 1) == 1);
        assert(!covered(total, percentage, 1)) by {
            if covered(total, percentage, 1) {
                let chunk = choose|chunk: nat|
                    1 <= chunk <= count && #[trigger] in_window(total, percentage, chunk, 1);
                assert(chunk == 1);
            }
        }
        assert(missed(total, percentage, 1));
    } else {
        assert(size <= (count - 1) * size) by (nonlinear_arith)
            requires
                count >= 2,
                size >= 1,
        ;
        if count < size {
            assert(window_end(total, percentage, 1) == count);
            assert(!covered(total, percentage, count as int)) by {
                if covered(total, percentage, count as int) {
                    let chunk = choose|chunk: nat|
                        1 <= chunk <= count && #[trigger] in_window(
                            total,
                            percentage,
                            chunk,
                            count as int,
                        );
                    if chunk >= 2 {
                        assert((chunk - 1) * size >= size) by (nonlinear_arith)
                            requires
                                chunk >= 2,
                                size >= 1,
                        ;
                    }
                }
            }
            assert(missed(total, percentage, count as int));
        } else {
            assert(in_window(total, percentage, 1, size as int));
            assert(in_window(total, percentage, 2, size as int));
            assert(covered_twice(total, percentage, size as int));
            assert(missed(total, percentage, size as int));
        }
    }
}

/// The options of a run.
#[derive(Debug, PartialEq, Eq)]
pub struct Settings {
    pub dsns: Dsns,
    pub debug: bool,
    pub verbose: bool,
    pub quiet: bool,
    pub full: bool,
    pub anon: bool,
    pub skip_collections: bool,
    pub dryrun: bool,
    pub human_logs: bool,
    pub fxa_file: String,
    pub chunk_limit: Option<u64>,
    pub offset: Option<u64>,
    pub start_bso: u8,
    pub end_bso: u8,
    pub chunk: u64,
    pub spanner_pool_size: Option<usize>,
    pub user: Option<Users>,
    pub abort: Option<Abort>,
    pub user_range: Option<UserRange>,
    pub user_percent: Option<UserPercent>,
}

/// What a [`Settings`] holds, as mathematical values.
pub struct SettingsView {
    pub dsns: Dsns,
    pub debug: bool,
    pub verbose: bool,
    pub quiet: bool,
    pub full: bool,
    pub anon: bool,
    pub skip_collections: bool,
    pub dryrun: bool,
    pub human_logs: bool,
    pub fxa_file: Seq<char>,
    pub chunk_limit: Option<u64>,
    pub offset: Option<u64>,
    pub start_bso: u8,
    pub end_bso: u8,
    pub chunk: u64,
    pub spanner_pool_size: Option<usize>,
    pub user: Option<UsersView>,
    pub abort: Option<Abort>,
    pub user_range: Option<UserRange>,
    pub user_percent: Option<UserPercent>,
}

impl View for Settings {
    type V = SettingsView;

    open spec fn view(&self) -> SettingsView {
        SettingsView {
            dsns: self.dsns,
            debug: self.debug,
            verbose: self.verbose,
            quiet: self.quiet,
            full: self.full,
            anon: self.anon,
            skip_collections: self.skip_collections,
            dryrun: self.dryrun,
            human_logs: self.human_logs,
            fxa_file: self.fxa_file@,
            chunk_limit: self.chunk_limit,
            offset: self.offset,
            start_bso: self.start_bso,
            end_bso: self.end_bso,
            chunk: self.chunk,
            spanner_pool_size: self.spanner_pool_size,
            user: match self.user {
                Some(users) => Some(users@),
                None => None,
            },
            abort: self.abort,
            user_range: self.user_range,
            user_percent: self.user_percent,
        }
    }
}

impl Clone for Settings {
    fn clone(&self) -> (copy: Self)
        ensures
            copy@ == self@,
    {
        Settings {
            dsns: self.dsns.clone(),
            debug: self.debug,
            verbose: self.verbose,
            quiet: self.quiet,
            full: self.full,
            anon: self.anon,
            skip_collections: self.skip_collections,
            dryrun: self.dryrun,
            human_logs: self.human_logs,
            fxa_file: self.fxa_file.clone(),
            chunk_limit: self.chunk_limit,
            offset: self.offset,
            start_bso: self.start_bso,
            end_bso: self.end_bso,
            chunk: self.chunk,
            spanner_pool_size: self.spanner_pool_size,
            user: match &self.user {
                Some(users) => Some(users.clone()),
                None => None,
            },
            abort: self.abort,
            user_range: self.user_range,
            user_percent: self.user_percent,
        }
    }
}

impl Default for Settings {
    /// The options of a run of which nothing was said: every user of the shards 0 to 18, in
    /// writes of a thousand storage objects, with the identities read from `users.csv`.
    fn default() -> (settings: Self)
        ensures
            settings.dsns.mysql is None,
            settings.dsns.spanner is None,
            !settings.debug,
            !settings.verbose,
            !settings.quiet,
            !settings.full,
            !settings.anon,
            !settings.skip_collections,
            !settings.dryrun,
            settings.human_logs,
            settings.fxa_file@ == "users.csv"@,
            settings.chunk_limit == Some(DEFAULT_CHUNK_SIZE),
            settings.offset == Some(DEFAULT_OFFSET),
            settings.start_bso == DEFAULT_START_BSO,
            settings.end_bso == DEFAULT_END_BSO,
            settings.chunk == DEFAULT_READ_CHUNK,
            settings.spanner_pool_size == Some(DEFAULT_SPANNER_POOL_SIZE),
            settings.user is None,
            settings.abort is None,
            settings.user_range is None,
            settings.user_percent is None,
    {
        Settings {
            dsns: Dsns::default(),
            debug: false,
            verbose: false,
            quiet: false,
            full: false,
            anon: false,
            skip_collections: false,
            dryrun: false,
            human_logs: true,
            fxa_file: "users.csv".to_owned(),
            chunk_limit: Some(DEFAULT_CHUNK_SIZE),
            offset: Some(DEFAULT_OFFSET),
            start_bso: DEFAULT_START_BSO,
            end_bso: DEFAULT_END_BSO,
            chunk: DEFAULT_READ_CHUNK,
            spanner_pool_size: Some(DEFAULT_SPANNER_POOL_SIZE),
            user: None,
            abort: None,
            user_range: None,
            user_percent: None,
        }
    }
}

} // verus!
