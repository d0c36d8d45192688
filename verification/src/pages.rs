//! The pages of the web client and how they are routed from the URL.
use vstd::prelude::*;

verus! {

/// A page of the web client.
#[derive(Debug, PartialEq, Eq, Clone, Copy)]
pub enum Page {
    Home,
}

/// What the routing reads of a browser URL: its hash (the part after `#`),
/// if it has one.
#[derive(Debug, PartialEq, Clone)]
pub struct Url {
    pub hash: Option<String>,
}

/// The pieces of `s` between the occurrences of `/` (one piece more than
/// there are slashes), as `str::split("/")` gives them.
pub open spec fn split_on_slash(s: Seq<char>) -> Seq<Seq<char>>
    decreases s.len(),
{
    if s.len() == 0 {
        seq![Seq::empty()]
    } else {
        let r = split_on_slash(s.drop_last());
        if s.last() == '/' {
            r.push(Seq::empty())
        } else {
            r.update(r.len() - 1, r.last().push(s.last()))
        }
    }
}

/// The page for a path of pieces: the home page is the path made of one
/// empty piece.
pub open spec fn page_of_path(path: Seq<Seq<char>>) -> Option<Page> {
    if path.len() == 1 && path[0].len() == 0 {
        Some(Page::Home)
    } else {
        None
    }
}

/// The text of the hash of a URL, empty when it has none.
pub open spec fn hash_text(url: Url) -> Seq<char> {
    match url.hash {
        Some(h) => h@,
        None => Seq::empty(),
    }
}

/// The texts of a sequence of string slices.
pub open spec fn str_texts(s: Seq<&str>) -> Seq<Seq<char>> {
    s.map_values(|p: &str| p@)
}

proof fn lemma_split_nonempty(s: Seq<char>)
    ensures
        split_on_slash(s).len() >= 1,
        s.len() > 0 ==> (split_on_slash(s).len() > 1 || split_on_slash(s).last().len() > 0),
    decreases s.len(),
{
    if s.len() > 0 {
        lemma_split_nonempty(s.drop_last());
    }
}

/// Splits `s` at each `/`.
fn split_slash(s: &str) -> (pieces: Vec<&str>)
    ensures
        str_texts(pieces@) == split_on_slash(s@),
{
    let n = s.unicode_len();
    let mut pieces: Vec<&str> = Vec::new();
    let mut start: usize = 0;
    let mut i: usize = 0;
    proof {
        assert(s@.take(0) =~= Seq::<char>::empty());
        assert(str_texts(pieces@) + seq![s@.subrange(0, 0)] =~= split_on_slash(s@.take(0)));
    }
    while i < n
        invariant
            start <= i <= n,
            n == s@.len(),
            str_texts(pieces@) + seq![s@.subrange(start as int, i as int)] == split_on_slash(
                s@.take(i as int),
            ),
        decreases n - i,
    {
        let c = s.get_char(i);
        proof {
            assert(s@.take(i + 1).drop_last() =~= s@.take(i as int));
            assert(s@.take(i + 1).last() == c);
        }
        if c == '/' {
            let piece = s.substring_char(start, i);
            let ghost before = pieces@;
            pieces.push(piece);
            proof {
                assert(str_texts(pieces@) =~= str_texts(before).push(piece@));
                assert(s@.subrange(i + 1, i + 1) =~= Seq::<char>::empty());
                assert(str_texts(pieces@) + seq![s@.subrange(i + 1, i + 1)] =~= (str_texts(before)
                    + seq![s@.subrange(start as int, i as int)]).push(Seq::empty()));
            }
            start = i + 1;
        } else {
            proof {
                assert(s@.subrange(start as int, i + 1) =~= s@.subrange(start as int, i as int).push(c));
                assert(str_texts(pieces@) + seq![s@.subrange(start as int, i + 1)] =~= (str_texts(
                    pieces@,
                ) + seq![s@.subrange(start as int, i as int)]).update(
                    str_texts(pieces@).len() as int,
                    s@.subrange(start as int, i as int).push(c),
                ));
            }
        }
        i = i + 1;
    }
    let last = s.substring_char(start, n);
    let ghost before = pieces@;
    pieces.push(last);
    proof {
        assert(s@.take(n as int) =~= s@);
        assert(str_texts(pieces@) =~= str_texts(before) + seq![last@]);
    }
    pieces
}

impl Page {
    /// The path of the page: the home page has the empty path.
    pub fn path(&self) -> (path: Vec<&str>)
        ensures
            path@.len() == 0,
    {
        match self {
            Page::Home => Vec::new(),
        }
    }

    /// The page of a path: the home page for the path of one empty piece,
    /// no page for any other.
    pub fn from_path(path: Vec<&str>) -> (page: Option<Page>)
        ensures
            page == page_of_path(str_texts(path@)),
    {
        if path.len() == 1 && path[0].is_empty() {
            Some(Page::Home)
        } else {
            None
        }
    }

    /// The page of a URL: its hash split at each `/`, read as a path. This
    /// is the home page exactly when the hash is empty or missing.
    pub fn from_url(url: Url) -> (page: Option<Page>)
        ensures
            page == page_of_path(split_on_slash(hash_text(url))),
            page == (if hash_text(url).len() == 0 {
                Some(Page::Home)
            } else {
                None
            }),
    {
        let ghost h = hash_text(url);
        let hash = match url.hash {
            Some(h) => h,
            None => String::new(),
        };
        let pieces = split_slash(hash.as_str());
        proof {
            lemma_split_nonempty(h);
            if h.len() == 0 {
                assert(split_on_slash(h) =~= seq![Seq::<char>::empty()]);
            }
        }
        Page::from_path(pieces)
    }
}

/// `s` holds `word` at position `i`.
pub open spec fn occurs_at(s: Seq<char>, word: Seq<char>, i: int) -> bool {
    0 <= i && i + word.len() <= s.len() && s.subrange(i, i + word.len()) == word
}

/// `s` holds `word` somewhere.
pub open spec fn contains_text(s: Seq<char>, word: Seq<char>) -> bool {
    exists|i: int| occurs_at(s, word, i)
}

/// Whether `s` holds `word` somewhere.
fn text_contains(s: &str, word: &str) -> (res: bool)
    ensures
        res == contains_text(s@, word@),
{
    let n = s.unicode_len();
    let m = word.unicode_len();
    if m > n {
        proof {
            assert forall|i: int| !occurs_at(s@, word@, i) by {}
        }
        return false;
    }
    let mut i: usize = 0;
    while i <= n - m
        invariant
            m <= n,
            n == s@.len(),
            m == word@.len(),
            i <= n - m + 1,
            forall|k: int| 0 <= k < i ==> !occurs_at(s@, word@, k),
        decreases n - m + 1 - i,
    {
        let mut j: usize = 0;
        let mut same = true;
        while j < m && same
            invariant
                m <= n,
                n == s@.len(),
                m == word@.len(),
                i + m <= n,
                j <= m,
                same ==> forall|k: int| 0 <= k < j ==> s@[i + k] == word@[k],
                !same ==> exists|k: int| 0 <= k < m && s@[i + k] != word@[k],
            decreases m - j + (if same { 1int } else { 0 }),
        {
            if s.get_char(i + j) != word.get_char(j) {
                same = false;
            } else {
                j = j + 1;
            }
        }
        if same {
            proof {
                assert(s@.subrange(i as int, i + m) =~= word@);
                assert(occurs_at(s@, word@, i as int));
            }
            return true;
        }
        proof {
            let k = choose|k: int| 0 <= k < m && s@[i + k] != word@[k];
            assert(s@.subrange(i as int, i + m)[k] != word@[k]);
        }
        i = i + 1;
    }
    proof {
        assert forall|k: int| !occurs_at(s@, word@, k) by {
            if occurs_at(s@, word@, k) {
                assert(k <= n - m);
            }
        }
    }
    false
}

/// The URL comes back from the Spotify login: its hash holds the text
/// `access_token`.
pub fn is_logging_in(url: &Url) -> (res: bool)
    ensures
        res == (url.hash is Some && contains_text(url.hash->0@, "access_token"@)),
{
    match &url.hash {
        Some(hash) => text_contains(hash.as_str(), "access_token"),
        None => false,
    }
}

} // verus!
