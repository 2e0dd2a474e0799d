//! The patch request: which category gets a new entry, and what the entry says.

use vstd::prelude::*;

verus! {

/// The code of a character after folding the ASCII capitals onto the small letters.
pub open spec fn folded(c: char) -> u32 {
    let n = c as u32;
    if 65 <= n && n <= 90 {
        (n + 32) as u32
    } else {
        n
    }
}

/// Two texts are the same but for the case of their ASCII letters.
pub open spec fn same_ignoring_case(a: Seq<char>, b: Seq<char>) -> bool {
    &&& a.len() == b.len()
    &&& forall|i: int| 0 <= i < a.len() ==> folded(#[trigger] a[i]) == folded(b[i])
}

fn fold(c: char) -> (n: u32)
    ensures
        n == folded(c),
{
    let n: u32 = c as u32;
    if 65 <= n && n <= 90 {
        n + 32
    } else {
        n
    }
}

/// Compares two texts without regard to the case of their ASCII letters.
pub fn eq_ignoring_case(a: &str, b: &str) -> (r: bool)
    ensures
        r == same_ignoring_case(a@, b@),
{
    let n: usize = a.unicode_len();
    if b.unicode_len() != n {
        return false;
    }
    let mut i: usize = 0;
    while i < n
        invariant
            i <= n,
            n == a@.len(),
            n == b@.len(),
            forall|j: int| 0 <= j < i ==> folded(#[trigger] a@[j]) == folded(b@[j]),
        decreases n - i,
    {
        if fold(a.get_char(i)) != fold(b.get_char(i)) {
            return false;
        }
        i += 1;
    }
    true
}

/// Whether a character is white space: a character with the Unicode
/// property `White_Space`.
pub open spec fn is_space(c: char) -> bool {
    let n = c as u32;
    ||| (0x09 <= n && n <= 0x0D)
    ||| n == 0x20
    ||| n == 0x85
    ||| n == 0xA0
    ||| n == 0x1680
    ||| (0x2000 <= n && n <= 0x200A)
    ||| n == 0x2028
    ||| n == 0x2029
    ||| n == 0x202F
    ||| n == 0x205F
    ||| n == 0x3000
}

/// How many white space characters stand at the front of a text.
pub open spec fn leading_spaces(s: Seq<char>) -> nat
    decreases s.len(),
{
    if s.len() > 0 && is_space(s[0]) {
        1 + leading_spaces(s.skip(1))
    } else {
        0
    }
}

/// How many white space characters stand at the end of a text.
pub open spec fn trailing_spaces(s: Seq<char>) -> nat
    decreases s.len(),
{
    if s.len() > 0 && is_space(s.last()) {
        1 + trailing_spaces(s.drop_last())
    } else {
        0
    }
}

/// A text without the white space at its front and at its end.
pub open spec fn trimmed(s: Seq<char>) -> Seq<char> {
    if leading_spaces(s) == s.len() {
        Seq::empty()
    } else {
        s.subrange(leading_spaces(s) as int, s.len() - trailing_spaces(s))
    }
}

/// Words joined by single spaces.
pub open spec fn joined(words: Seq<String>) -> Seq<char>
    decreases words.len(),
{
    if words.len() == 0 {
        Seq::empty()
    } else if words.len() == 1 {
        words[0]@
    } else {
        joined(words.drop_last()) + seq![' '] + words.last()@
    }
}

fn space(c: char) -> (r: bool)
    ensures
        r == is_space(c),
{
    let n: u32 = c as u32;
    (0x09 <= n && n <= 0x0D) || n == 0x20 || n == 0x85 || n == 0xA0 || n == 0x1680 || (0x2000 <= n
        && n <= 0x200A) || n == 0x2028 || n == 0x2029 || n == 0x202F || n == 0x205F || n == 0x3000
}

/// Removes the white space at the front and at the end of a text.
pub fn trim(text: &str) -> (r: String)
    ensures
        r@ == trimmed(text@),
{
    let n: usize = text.unicode_len();
    let mut a: usize = 0;
    assert(text@.skip(0) =~= text@);
    while a < n && space(text.get_char(a))
        invariant
            a <= n,
            n == text@.len(),
            leading_spaces(text@) == a + leading_spaces(text@.skip(a as int)),
        decreases n - a,
    {
        assert(text@.skip(a as int).skip(1) =~= text@.skip(a + 1));
        a += 1;
    }
    if a == n {
        return String::new();
    }
    assert(text@.skip(a as int)[0] == text@[a as int]);
    assert(leading_spaces(text@) == a);
    let mut b: usize = n;
    assert(text@.take(n as int) =~= text@);
    while b > a && space(text.get_char(b - 1))
        invariant
            a < b <= n,
            n == text@.len(),
            !is_space(text@[a as int]),
            trailing_spaces(text@) == (n - b) + trailing_spaces(text@.take(b as int)),
        decreases b,
    {
        assert(text@.take(b as int).drop_last() =~= text@.take(b - 1));
        b -= 1;
    }
    assert(text@.take(b as int).last() == text@[b - 1]);
    assert(trailing_spaces(text@) == n - b);
    String::from_str(text.substring_char(a, b))
}

/// Joins words by single spaces.
pub fn join(words: &Vec<String>) -> (r: String)
    ensures
        r@ == joined(words@),
{
    let mut text = String::new();
    let mut i: usize = 0;
    while i < words.len()
        invariant
            i <= words.len(),
            text@ == joined(words@.take(i as int)),
        decreases words.len() - i,
    {
        proof {
            reveal_strlit(" ");
            assert(words@.take(i + 1).drop_last() =~= words@.take(i as int));
            assert(" "@ =~= seq![' ']);
        }
        if i > 0 {
            text.append(" ");
        }
        text.append(words[i].as_str());
        proof {
            if i == 0 {
                assert(text@ =~= words@[0]@);
            }
        }
        i += 1;
    }
    assert(words@.take(words.len() as int) =~= words@);
    text
}

/// The kinds of change, in the order in which a release lists them.
#[derive(Clone, Copy, Debug, PartialEq, Eq, Structural)]
pub enum Category {
    Added,
    Changed,
    Deprecated,
    Removed,
    Fixed,
    Security,
}

impl Category {
    /// The place of this category in a release, counted from zero.
    pub open spec fn rank_spec(self) -> nat {
        match self {
            Category::Added => 0,
            Category::Changed => 1,
            Category::Deprecated => 2,
            Category::Removed => 3,
            Category::Fixed => 4,
            Category::Security => 5,
        }
    }

    /// The title of this category's heading.
    pub open spec fn title_spec(self) -> Seq<char> {
        match self {
            Category::Added => "Added"@,
            Category::Changed => "Changed"@,
            Category::Deprecated => "Deprecated"@,
            Category::Removed => "Removed"@,
            Category::Fixed => "Fixed"@,
            Category::Security => "Security"@,
        }
    }

    /// The category that a name stands for: the first whose title is the
    /// name, but for the case of letters.
    pub open spec fn named(name: Seq<char>) -> Option<Category> {
        if same_ignoring_case(name, Category::Added.title_spec()) {
            Some(Category::Added)
        } else if same_ignoring_case(name, Category::Changed.title_spec()) {
            Some(Category::Changed)
        } else if same_ignoring_case(name, Category::Deprecated.title_spec()) {
            Some(Category::Deprecated)
        } else if same_ignoring_case(name, Category::Removed.title_spec()) {
            Some(Category::Removed)
        } else if same_ignoring_case(name, Category::Fixed.title_spec()) {
            Some(Category::Fixed)
        } else if same_ignoring_case(name, Category::Security.title_spec()) {
            Some(Category::Security)
        } else {
            None
        }
    }

    /// The place of this category in a release, counted from zero.
    pub fn rank(self) -> (r: u8)
        ensures
            r == self.rank_spec(),
    {
        match self {
            Category::Added => 0,
            Category::Changed => 1,
            Category::Deprecated => 2,
            Category::Removed => 3,
            Category::Fixed => 4,
            Category::Security => 5,
        }
    }

    /// The title of this category's heading.
    pub fn title(self) -> (r: &'static str)
        ensures
            r@ == self.title_spec(),
    {
        match self {
            Category::Added => "Added",
            Category::Changed => "Changed",
            Category::Deprecated => "Deprecated",
            Category::Removed => "Removed",
            Category::Fixed => "Fixed",
            Category::Security => "Security",
        }
    }

    /// Finds the category that a name stands for, whatever the case of its letters.
    pub fn parse(name: &str) -> (r: Option<Category>)
        ensures
            r == Category::named(name@),
    {
        if eq_ignoring_case(name, Category::Added.title()) {
            Some(Category::Added)
        } else if eq_ignoring_case(name, Category::Changed.title()) {
            Some(Category::Changed)
        } else if eq_ignoring_case(name, Category::Deprecated.title()) {
            Some(Category::Deprecated)
        } else if eq_ignoring_case(name, Category::Removed.title()) {
            Some(Category::Removed)
        } else if eq_ignoring_case(name, Category::Fixed.title()) {
            Some(Category::Fixed)
        } else if eq_ignoring_case(name, Category::Security.title()) {
            Some(Category::Security)
        } else {
            None
        }
    }
}

/// Why a request was turned down before any document was looked at.
#[derive(Clone, Copy, Debug, PartialEq, Eq, Structural)]
pub enum RequestError {
    /// The action names no category.
    UnknownCategory,
    /// There is no text for the entry.
    MissingArgument,
}

impl RequestError {
    /// A sentence for the user.
    pub open spec fn message_spec(self) -> Seq<char> {
        match self {
            RequestError::UnknownCategory => "the action names no known category"@,
            RequestError::MissingArgument => "no text was given for the entry"@,
        }
    }

    /// A sentence for the user.
    pub fn message(&self) -> (r: String)
        ensures
            r@ == self.message_spec(),
    {
        match self {
            RequestError::UnknownCategory => String::from_str("the action names no known category"),
            RequestError::MissingArgument => String::from_str("no text was given for the entry"),
        }
    }
}

/// A valid request: a category and the text of the entry to add under it.
#[derive(Clone, Debug)]
pub struct Request {
    category: Category,
    argument: String,
}

impl Request {
    /// The category that gets the entry.
    pub closed spec fn category_spec(&self) -> Category {
        self.category
    }

    /// The text of the entry.
    pub closed spec fn entry_spec(&self) -> Seq<char> {
        self.argument@
    }

    /// What `new` returns for an action and an entry text.
    pub open spec fn checked(action: Seq<char>, argument: Seq<char>) -> Result<
        (Category, Seq<char>),
        RequestError,
    > {
        match Category::named(action) {
            None => Err(RequestError::UnknownCategory),
            Some(category) => if argument.len() == 0 {
                Err(RequestError::MissingArgument)
            } else {
                Ok((category, argument))
            },
        }
    }

    /// Makes a request from the name of a category and the text of the entry.
    /// A name outside the vocabulary is refused first, then an empty text.
    pub fn new(action: &str, argument: String) -> (r: Result<Request, RequestError>)
        ensures
            match r {
                Ok(request) => Request::checked(action@, argument@) == Ok::<
                    (Category, Seq<char>),
                    RequestError,
                >((request.category_spec(), request.entry_spec())),
                Err(e) => Request::checked(action@, argument@) == Err::<
                    (Category, Seq<char>),
                    RequestError,
                >(e),
            },
    {
        match Category::parse(action) {
            None => Err(RequestError::UnknownCategory),
            Some(category) => {
                if argument.as_str().unicode_len() == 0 {
                    Err(RequestError::MissingArgument)
                } else {
                    Ok(Request { category, argument })
                }
            },
        }
    }

    /// Makes a request from the name of a category and the words of the
    /// entry: the text of the entry is the words joined by single spaces,
    /// without white space at its front and at its end.
    pub fn from_words(action: &str, words: &Vec<String>) -> (r: Result<Request, RequestError>)
        ensures
            match r {
                Ok(request) => Request::checked(action@, trimmed(joined(words@))) == Ok::<
                    (Category, Seq<char>),
                    RequestError,
                >((request.category_spec(), request.entry_spec())),
                Err(e) => Request::checked(action@, trimmed(joined(words@))) == Err::<
                    (Category, Seq<char>),
                    RequestError,
                >(e),
            },
    {
        let text = join(words);
        Request::new(action, trim(text.as_str()))
    }

    /// The category that gets the entry.
    pub fn category(&self) -> (r: Category)
        ensures
            r == self.category_spec(),
    {
        self.category
    }

    /// The text of the entry.
    pub fn entry(&self) -> (r: &String)
        ensures
            r@ == self.entry_spec(),
    {
        &self.argument
    }
}

} // verus!
