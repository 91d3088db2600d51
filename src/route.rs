use vstd::prelude::*;

verus! {

/// The request methods that the service tells apart.
#[derive(Clone, Copy, Debug, PartialEq, Eq)]
pub enum Method {
    Get,
    Post,
    Put,
    Delete,
    Other,
}

/// What a request asks of the store, decided from its method and path.
#[derive(Clone, Copy, Debug, PartialEq, Eq)]
pub enum Route {
    /// `POST /persons`
    Create,
    /// `GET /persons`
    ListAll,
    /// `GET /persons/{id}`
    Fetch(u64),
    /// `PUT /persons/{id}`
    Update(u64),
    /// `DELETE /persons/{id}`
    Remove(u64),
    /// An item path whose identifier token is not a `u64`.
    BadId,
    /// No route matches.
    Unknown,
}

/// The collection path, `/persons`.
pub open spec fn collection_path() -> Seq<char> {
    seq!['/', 'p', 'e', 'r', 's', 'o', 'n', 's']
}

/// The prefix of an item path, `/persons/`.
pub open spec fn item_prefix() -> Seq<char> {
    collection_path().push('/')
}

pub open spec fn is_digit(c: char) -> bool {
    '0' <= c && c <= '9'
}

pub open spec fn all_digits(t: Seq<char>) -> bool {
    forall|i: int| 0 <= i < t.len() ==> is_digit(#[trigger] t[i])
}

/// The number that the decimal digits `t` write.
pub open spec fn digits_value(t: Seq<char>) -> int
    decreases t.len(),
{
    if t.len() == 0 {
        0
    } else {
        digits_value(t.drop_last()) * 10 + (t.last() as int - '0' as int)
    }
}

/// The `u64` that the token `t` writes: an optional `+`, then one or more
/// decimal digits whose value fits in `u64`.
pub open spec fn id_value(t: Seq<char>) -> Option<u64> {
    let d = if t.len() > 0 && t[0] == '+' {
        t.drop_first()
    } else {
        t
    };
    if d.len() > 0 && all_digits(d) && digits_value(d) <= u64::MAX {
        Some(digits_value(d) as u64)
    } else {
        None
    }
}

/// The route of an item path for an identifier token `t`.
pub open spec fn item_route(m: Method, t: Seq<char>) -> Route {
    match id_value(t) {
        None => Route::BadId,
        Some(id) => match m {
            Method::Get => Route::Fetch(id),
            Method::Put => Route::Update(id),
            _ => Route::Remove(id),
        },
    }
}

/// The route of a request with method `m` and path `p`.
pub open spec fn route_of(m: Method, p: Seq<char>) -> Route {
    let is_item = p.len() >= item_prefix().len() && p.take(item_prefix().len() as int)
        == item_prefix();
    let token = p.skip(item_prefix().len() as int);
    match m {
        Method::Post => if p == collection_path() {
            Route::Create
        } else {
            Route::Unknown
        },
        Method::Get => if p == collection_path() {
            Route::ListAll
        } else if is_item {
            item_route(m, token)
        } else {
            Route::Unknown
        },
        Method::Put | Method::Delete => if is_item {
            item_route(m, token)
        } else {
            Route::Unknown
        },
        Method::Other => Route::Unknown,
    }
}

impl Route {
    /// Whether the request's body is decoded for this route.
    pub open spec fn spec_needs_body(self) -> bool {
        self is Create || self is Update
    }

    pub fn needs_body(&self) -> (r: bool)
        ensures
            r == self.spec_needs_body(),
    {
        matches!(self, Route::Create | Route::Update(_))
    }
}

proof fn lemma_digits_value_nonneg(t: Seq<char>)
    requires
        all_digits(t),
    ensures
        digits_value(t) >= 0,
    decreases t.len(),
{
    if t.len() > 0 {
        assert(all_digits(t.drop_last())) by {
            assert forall|i: int| 0 <= i < t.drop_last().len() implies is_digit(
                #[trigger] t.drop_last()[i],
            ) by {
                assert(t.drop_last()[i] == t[i]);
            }
        }
        lemma_digits_value_nonneg(t.drop_last());
        assert(is_digit(t[t.len() - 1]));
    }
}

/// Each step of a longer run of digits can only raise the value.
proof fn lemma_digits_value_grows(t: Seq<char>, j: int)
    requires
        all_digits(t),
        0 <= j <= t.len(),
    ensures
        digits_value(t.take(j)) <= digits_value(t),
    decreases t.len() - j,
{
    if j < t.len() {
        lemma_digits_value_grows(t, j + 1);
        assert(t.take(j + 1).drop_last() =~= t.take(j));
        assert(t.take(j + 1).last() == t[j]);
        assert(is_digit(t[j]));
        assert(all_digits(t.take(j))) by {
            assert forall|i: int| 0 <= i < j implies is_digit(#[trigger] t.take(j)[i]) by {
                assert(t.take(j)[i] == t[i]);
            }
        }
        lemma_digits_value_nonneg(t.take(j));
    } else {
        assert(t.take(j) =~= t);
    }
}

/// The characters of `s`.
fn chars_of(s: &str) -> (r: Vec<char>)
    ensures
        r@ == s@,
{
    let mut out: Vec<char> = Vec::new();
    for c in it: s.chars()
        invariant
            it.seq() == s@,
            out@ == it.seq().take(it.index()),
    {
        out.push(c);
        proof {
            assert(out@ =~= it.seq().take(it.index() + 1));
        }
    }
    proof {
        assert(out@.len() == s@.len());
        assert(out@ =~= s@);
    }
    out
}

/// Whether `a` and `b` hold the same characters.
fn same_chars(a: &Vec<char>, b: &Vec<char>) -> (r: bool)
    ensures
        r == (a@ == b@),
{
    if a.len() != b.len() {
        return false;
    }
    let mut i: usize = 0;
    while i < a.len()
        invariant
            a.len() == b.len(),
            i <= a.len(),
            a@.take(i as int) == b@.take(i as int),
        decreases a.len() - i,
    {
        if a[i] != b[i] {
            return false;
        }
        proof {
            assert(a@.take(i + 1) =~= a@.take(i as int).push(a@[i as int]));
            assert(b@.take(i + 1) =~= b@.take(i as int).push(b@[i as int]));
        }
        i = i + 1;
    }
    proof {
        assert(a@.take(i as int) =~= a@);
        assert(b@.take(i as int) =~= b@);
    }
    true
}

/// The characters of `p` from position `k` on.
fn chars_from(p: &Vec<char>, k: usize) -> (r: Vec<char>)
    requires
        k <= p.len(),
    ensures
        r@ == p@.skip(k as int),
{
    let mut out: Vec<char> = Vec::new();
    let mut i: usize = k;
    while i < p.len()
        invariant
            k <= i <= p.len(),
            out@ == p@.subrange(k as int, i as int),
        decreases p.len() - i,
    {
        out.push(p[i]);
        proof {
            assert(out@ =~= p@.subrange(k as int, i + 1));
        }
        i = i + 1;
    }
    proof {
        assert(out@ =~= p@.skip(k as int));
    }
    out
}

/// Reads an identifier token: an optional `+`, then decimal digits whose
/// value fits in `u64`.
pub fn parse_id(token: &Vec<char>) -> (r: Option<u64>)
    ensures
        r == id_value(token@),
{
    let n = token.len();
    let mut start: usize = 0;
    if n > 0 && token[0] == '+' {
        start = 1;
    }
    let ghost d = token@.subrange(start as int, n as int);
    proof {
        if n > 0 && token@[0] == '+' {
            assert(d =~= token@.drop_first());
        } else {
            assert(d =~= token@);
        }
        assert(id_value(token@) == (if d.len() > 0 && all_digits(d) && digits_value(d)
            <= u64::MAX {
            Some(digits_value(d) as u64)
        } else {
            None
        }));
    }
    if start >= n {
        return None;
    }
    let mut value: u64 = 0;
    let mut i: usize = start;
    while i < n
        invariant
            n == token.len(),
            d == token@.subrange(start as int, n as int),
            start < n,
            id_value(token@) == (if all_digits(d) && digits_value(d) <= u64::MAX {
                Some(digits_value(d) as u64)
            } else {
                None
            }),
            start <= i <= n,
            all_digits(d.take(i - start)),
            value == digits_value(d.take(i - start)),
        decreases n - i,
    {
        let c = token[i];
        if !('0' <= c && c <= '9') {
            assert(!is_digit(d[i - start]));
            return None;
        }
        let digit: u64 = (c as u32 - '0' as u32) as u64;
        proof {
            assert(d.take(i - start + 1).drop_last() =~= d.take(i - start));
            assert(d.take(i - start + 1).last() == c);
        }
        if value > (u64::MAX - digit) / 10 {
            proof {
                assert(digits_value(d.take(i - start + 1)) > u64::MAX) by (nonlinear_arith)
                    requires
                        digits_value(d.take(i - start + 1)) == value * 10 + digit,
                        value > (u64::MAX - digit) / 10,
                        digit <= 9,
                ;
                if all_digits(d) {
                    lemma_digits_value_grows(d, i - start + 1);
                }
            }
            return None;
        }
        proof {
            assert(value * 10 + digit <= u64::MAX) by (nonlinear_arith)
                requires
                    value <= (u64::MAX - digit) / 10,
                    digit <= 9,
            ;
        }
        value = value * 10 + digit;
        proof {
            assert forall|j: int| 0 <= j < i - start + 1 implies is_digit(
                #[trigger] d.take(i - start + 1)[j],
            ) by {
                if j < i - start {
                    assert(d.take(i - start + 1)[j] == d.take(i - start)[j]);
                }
            }
        }
        i = i + 1;
    }
    proof {
        assert(d.take(i - start) =~= d);
    }
    Some(value)
}

/// The route for an item path with identifier token `token`.
fn item(method: Method, token: &Vec<char>) -> (r: Route)
    ensures
        r == item_route(method, token@),
{
    match parse_id(token) {
        None => Route::BadId,
        Some(id) => match method {
            Method::Get => Route::Fetch(id),
            Method::Put => Route::Update(id),
            _ => Route::Remove(id),
        },
    }
}

/// Decides what a request with method `method` and path `path` asks for.
/// The collection path must match exactly; an item path is `/persons/`
/// followed by a token that is read whole as the identifier.
pub fn route(method: Method, path: &str) -> (r: Route)
    ensures
        r == route_of(method, path@),
{
    let p = chars_of(path);
    let collection: Vec<char> = vec!['/', 'p', 'e', 'r', 's', 'o', 'n', 's'];
    let prefix: Vec<char> = vec!['/', 'p', 'e', 'r', 's', 'o', 'n', 's', '/'];
    proof {
        assert(collection@ =~= collection_path());
        assert(prefix@ =~= item_prefix());
    }
    let is_collection = same_chars(&p, &collection);
    let plen = prefix.len();
    let is_item = if p.len() >= plen {
        let mut lead: Vec<char> = Vec::new();
        let mut i: usize = 0;
        while i < plen
            invariant
                plen == prefix.len(),
                plen <= p.len(),
                i <= plen,
                lead@ == p@.take(i as int),
            decreases plen - i,
        {
            lead.push(p[i]);
            proof {
                assert(lead@ =~= p@.take(i + 1));
            }
            i = i + 1;
        }
        same_chars(&lead, &prefix)
    } else {
        false
    };
    match method {
        Method::Post => if is_collection {
            Route::Create
        } else {
            Route::Unknown
        },
        Method::Get => if is_collection {
            Route::ListAll
        } else if is_item {
            item(method, &chars_from(&p, plen))
        } else {
            Route::Unknown
        },
        Method::Put | Method::Delete => if is_item {
            item(method, &chars_from(&p, plen))
        } else {
            Route::Unknown
        },
        Method::Other => Route::Unknown,
    }
}

} // verus!
