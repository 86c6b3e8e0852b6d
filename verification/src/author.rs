//! Authors of packages and projects: `name <email>`.
use vstd::prelude::*;

use crate::intern::{resolve_spec, InternedString, Interner, InternerError};
use crate::package_id::{extends, lemma_extends_trans, lemma_intern_step, lemma_resolve_survives};
use crate::text::{chars_of, range_contains};

verus! {

/// Why an author was refused.
#[derive(Debug, Clone, PartialEq, Eq)]
pub enum AuthorError {
    /// The name holds `<` or `>`.
    InvalidName(String),
    /// The email holds `<` or `>`.
    InvalidEmail(String),
    /// The text is not of the form `name <email>`.
    InvalidFormat(String),
    /// An interned name or email is not known to the interner.
    InternerError(InternerError),
}

/// A name or email: it holds no angle bracket.
pub open spec fn field_ok(s: Seq<char>) -> bool {
    !s.contains('<') && !s.contains('>')
}

/// The text `name <email>`.
pub open spec fn author_text(name: Seq<char>, email: Seq<char>) -> Seq<char> {
    name + " <"@ + email + ">"@
}

/// Whether `s` is `name <email>` for a name and an email without angle brackets.
pub open spec fn author_text_ok(s: Seq<char>) -> bool {
    exists|name: Seq<char>, email: Seq<char>|
        field_ok(name) && field_ok(email) && s == #[trigger] author_text(name, email)
}

/// An author's name and email are free of angle brackets.
pub open spec fn author_ok(a: Author) -> bool {
    field_ok(a.name_spec()) && field_ok(a.email_spec())
}

/// An author: a name and an email, ordered by name, then email.
#[derive(Debug, PartialEq, Eq, PartialOrd, Ord, Hash)]
pub struct Author {
    name: String,
    email: String,
}

fn holds_bracket(s: &str) -> (r: bool)
    ensures
        r == !field_ok(s@),
{
    let chars = chars_of(s);
    let r = range_contains(&chars, 0, chars.len(), '<') || range_contains(
        &chars,
        0,
        chars.len(),
        '>',
    );
    assert(chars@.subrange(0, chars@.len() as int) =~= s@);
    r
}

impl Author {
    /// Neither the name nor the email holds an angle bracket.
    #[verifier::type_invariant]
    spec fn fields_ok(self) -> bool {
        field_ok(self.name@) && field_ok(self.email@)
    }

    pub closed spec fn name_spec(self) -> Seq<char> {
        self.name@
    }

    pub closed spec fn email_spec(self) -> Seq<char> {
        self.email@
    }

    /// The author of this name and email; neither may hold `<` or `>`.
    pub fn new(name: &str, email: &str) -> (r: Result<Author, AuthorError>)
        ensures
            !field_ok(name@) ==> (r matches Err(AuthorError::InvalidName(n)) && n@ == name@),
            field_ok(name@) && !field_ok(email@) ==> (r matches Err(AuthorError::InvalidEmail(e))
                && e@ == email@),
            field_ok(name@) && field_ok(email@) ==> (r matches Ok(a) && a.name_spec() == name@
                && a.email_spec() == email@),
    {
        if holds_bracket(name) {
            return Err(AuthorError::InvalidName(String::from_str(name)));
        }
        if holds_bracket(email) {
            return Err(AuthorError::InvalidEmail(String::from_str(email)));
        }
        Ok(Author { name: String::from_str(name), email: String::from_str(email) })
    }

    /// The name; every author's name and email are free of angle brackets.
    pub fn author(&self) -> (r: &str)
        ensures
            r@ == self.name_spec(),
            author_ok(*self),
    {
        proof {
            use_type_invariant(self);
        }
        self.name.as_str()
    }

    /// The email; every author's name and email are free of angle brackets.
    pub fn email(&self) -> (r: &str)
        ensures
            r@ == self.email_spec(),
            author_ok(*self),
    {
        proof {
            use_type_invariant(self);
        }
        self.email.as_str()
    }

    /// `name <email>`.
    pub fn get_output_format(&self) -> (r: String)
        ensures
            r@ == author_text(self.name_spec(), self.email_spec()),
    {
        let mut s = self.name.clone();
        s.append(" <");
        s.append(self.email.as_str());
        s.append(">");
        proof {
            reveal_strlit(" <");
            reveal_strlit(">");
        }
        s
    }

    /// Parses `name <email>`, where neither part holds an angle bracket.
    pub fn parse(s: &str) -> (r: Result<Author, AuthorError>)
        ensures
            author_text_ok(s@) <==> r is Ok,
            r matches Ok(a) ==> s@ == author_text(a.name_spec(), a.email_spec()),
            r matches Err(e) ==> (e matches AuthorError::InvalidFormat(t) && t@ == s@),
    {
        proof {
            reveal_strlit(" <");
            reveal_strlit(">");
        }
        let chars = chars_of(s);
        let n = chars.len();
        let mut i: usize = 0;
        while i < n && chars[i] != '<'
            invariant
                chars@ == s@,
                n == chars@.len(),
                i <= n,
                forall|j: int| 0 <= j < i ==> chars@[j] != '<',
            decreases n - i,
        {
            i = i + 1;
        }
        if i == 0 || i >= n || n < 2 || chars[i - 1] != ' ' || chars[n - 1] != '>' || i + 1 > n - 1 {
            proof {
                if author_text_ok(s@) {
                    let (nm, em) = choose|nm: Seq<char>, em: Seq<char>|
                        field_ok(nm) && field_ok(em) && s@ == #[trigger] author_text(nm, em);
                    assert(s@[nm.len() + 1int] == '<');
                    assert forall|j: int| 0 <= j < nm.len() implies s@[j] != '<' by {
                        assert(s@[j] == nm[j]);
                    }
                    assert(i == nm.len() + 1);
                    assert(s@[nm.len() as int] == ' ');
                    assert(s@[s@.len() - 1] == '>');
                }
            }
            return Err(AuthorError::InvalidFormat(String::from_str(s)));
        }
        let name = s.substring_char(0, i - 1);
        let email = s.substring_char(i + 1, n - 1);
        let bad = holds_bracket(name) || holds_bracket(email);
        proof {
            assert(name@ == s@.subrange(0, i - 1));
            assert(email@ == s@.subrange(i + 1, n - 1));
            if !bad {
                assert(s@ =~= author_text(name@, email@));
            } else if author_text_ok(s@) {
                let (nm, em) = choose|nm: Seq<char>, em: Seq<char>|
                    field_ok(nm) && field_ok(em) && s@ == #[trigger] author_text(nm, em);
                assert(s@[nm.len() + 1int] == '<');
                assert forall|j: int| 0 <= j < nm.len() implies s@[j] != '<' by {
                    assert(s@[j] == nm[j]);
                }
                assert(i == nm.len() + 1);
                assert(name@ =~= nm);
                assert(email@ =~= em);
            }
        }
        if bad {
            return Err(AuthorError::InvalidFormat(String::from_str(s)));
        }
        Ok(Author { name: String::from_str(name), email: String::from_str(email) })
    }
}

/// An author text names one author: its name and email are determined by it.
pub proof fn law_author_text_unique(n1: Seq<char>, e1: Seq<char>, n2: Seq<char>, e2: Seq<char>)
    requires
        field_ok(n1),
        field_ok(e1),
        field_ok(n2),
        field_ok(e2),
        author_text(n1, e1) == author_text(n2, e2),
    ensures
        n1 == n2,
        e1 == e2,
{
    reveal_strlit(" <");
    reveal_strlit(">");
    let t = author_text(n1, e1);
    assert(t[n1.len() + 1int] == '<');
    assert(t[n2.len() + 1int] == '<');
    if n1.len() < n2.len() {
        if n1.len() + 1 < n2.len() {
            assert(t[n1.len() + 1int] == n2[n1.len() + 1int]);
        } else {
            assert(t[n2.len() as int] == ' ');
            assert(t[n1.len() + 1int] == t[n2.len() as int]);
        }
    } else if n2.len() < n1.len() {
        if n2.len() + 1 < n1.len() {
            assert(t[n2.len() + 1int] == n1[n2.len() + 1int]);
        } else {
            assert(t[n1.len() as int] == ' ');
            assert(t[n2.len() + 1int] == t[n1.len() as int]);
        }
    }
    assert(n1 =~= t.take(n1.len() as int));
    assert(n2 =~= t.take(n2.len() as int));
    assert(e1 =~= t.subrange(n1.len() + 2int, t.len() - 1));
    assert(e2 =~= t.subrange(n2.len() + 2int, t.len() - 1));
}

/// The output format of an author parses: it is a well-formed author text.
pub proof fn law_author_text_parses(name: Seq<char>, email: Seq<char>)
    requires
        field_ok(name),
        field_ok(email),
    ensures
        author_text_ok(author_text(name, email)),
{
    assert(field_ok(name) && field_ok(email) && author_text(name, email) == author_text(
        name,
        email,
    ));
}

/// An author whose name and email are interned.
#[derive(Debug, Clone, Copy, PartialEq, Eq, Hash)]
pub struct InternedAuthor {
    pub name: InternedString,
    pub email: InternedString,
}

/// The interned author's keys name the author's name and email in `m`.
pub open spec fn author_named(m: Seq<Seq<char>>, a: Author, i: InternedAuthor) -> bool {
    &&& resolve_spec(m, i.name.0 as int) == Some(a.name_spec())
    &&& resolve_spec(m, i.email.0 as int) == Some(a.email_spec())
}

/// Naming survives growing the table.
pub proof fn lemma_author_named_survives(
    a: Seq<Seq<char>>,
    b: Seq<Seq<char>>,
    x: Author,
    i: InternedAuthor,
)
    requires
        extends(a, b),
        author_named(a, x, i),
    ensures
        author_named(b, x, i),
{
    lemma_resolve_survives(a, b, i.name.0 as int);
    lemma_resolve_survives(a, b, i.email.0 as int);
}

impl Author {
    /// Interns the name, then the email.
    pub fn intern(&self, interner: &mut Interner) -> (r: Result<InternedAuthor, InternerError>)
        requires
            old(interner)@.len() + 2 < usize::MAX,
        ensures
            r matches Ok(i) && author_named(final(interner)@, *self, i),
            extends(old(interner)@, final(interner)@),
            final(interner)@.len() <= old(interner)@.len() + 2,
    {
        let ghost m0 = interner@;
        let n = match interner.get_or_intern(self.name.as_str()) {
            Ok(k) => k,
            Err(e) => {
                return Err(e);
            },
        };
        let ghost m1 = interner@;
        proof {
            lemma_intern_step(m0, self.name@);
        }
        let e = match interner.get_or_intern(self.email.as_str()) {
            Ok(k) => k,
            Err(e) => {
                return Err(e);
            },
        };
        proof {
            lemma_intern_step(m1, self.email@);
            lemma_extends_trans(m0, m1, interner@);
            lemma_resolve_survives(m1, interner@, n.0 as int);
        }
        Ok(InternedAuthor { name: n, email: e })
    }
}

impl InternedAuthor {
    /// The author again: the texts of the keys, checked as an author's name and email.
    pub fn resolve(&self, interner: &Interner) -> (r: Result<Author, AuthorError>)
        ensures
            match (resolve_spec(interner@, self.name.0 as int), resolve_spec(
                interner@,
                self.email.0 as int,
            )) {
                (Some(n), Some(e)) => if field_ok(n) && field_ok(e) {
                    r matches Ok(a) && a.name_spec() == n && a.email_spec() == e
                } else {
                    r is Err
                },
                _ => r matches Err(AuthorError::InternerError(_)),
            },
    {
        let n = match interner.resolve(&self.name) {
            Ok(t) => t,
            Err(e) => {
                return Err(AuthorError::InternerError(e));
            },
        };
        let e = match interner.resolve(&self.email) {
            Ok(t) => t,
            Err(e) => {
                return Err(AuthorError::InternerError(e));
            },
        };
        Author::new(n, e)
    }
}

impl Clone for Author {
    fn clone(&self) -> (r: Self)
        ensures
            r.name_spec() == self.name_spec(),
            r.email_spec() == self.email_spec(),
    {
        proof {
            use_type_invariant(self);
        }
        Author { name: self.name.clone(), email: self.email.clone() }
    }
}

impl std::str::FromStr for Author {
    type Err = AuthorError;

    /// Parses `name <email>`, as `Author::parse` does.
    fn from_str(s: &str) -> (r: Result<Author, AuthorError>)
        ensures
            author_text_ok(s@) <==> r is Ok,
            r matches Ok(a) ==> s@ == author_text(a.name_spec(), a.email_spec()),
            r matches Err(e) ==> (e matches AuthorError::InvalidFormat(t) && t@ == s@),
    {
        Author::parse(s)
    }
}

} // verus!
