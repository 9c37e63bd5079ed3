//! Values that borrow their data for as long as they can and own it once they must.
use std::borrow::Cow;
use vstd::prelude::*;
use vstd::slice::slice_to_vec;
use crate::text::{has_char, replace_char};

verus! {

/// What is left of a text once every occurrence of `c` is taken out.
pub open spec fn without(s: Seq<char>, c: char) -> Seq<char>
    decreases s.len(),
{
    if s.len() == 0 {
        s
    } else if s.last() == c {
        without(s.drop_last(), c)
    } else {
        without(s.drop_last(), c).push(s.last())
    }
}

/// Removes the spaces from `s`. A text without spaces is handed back as it is,
/// borrowed; only a text that has some is copied.
pub fn remove_whitespaces(s: &str) -> (text: Cow<'_, str>)
    ensures
        text@ == without(s@, ' '),
        text matches Cow::Borrowed(_) <==> !s@.contains(' '),
{
    if has_char(s, ' ') {
        Cow::Owned(replace_char(s, ' '))
    } else {
        proof {
            lemma_without_absent(s@, ' ');
        }
        Cow::Borrowed(s)
    }
}

/// A text that does not hold `c` is what is left of it without `c`.
pub proof fn lemma_without_absent(s: Seq<char>, c: char)
    requires
        !s.contains(c),
    ensures
        without(s, c) == s,
    decreases s.len(),
{
    if s.len() > 0 {
        lemma_without_absent(s.drop_last(), c);
    }
}

/// A user whose names are either borrowed or owned.
pub struct User<'a> {
    first_name: Cow<'a, str>,
    last_name: Cow<'a, str>,
}

impl<'a> User<'a> {
    /// The first name, as text.
    pub closed spec fn first(self) -> Seq<char> {
        self.first_name@
    }

    /// The last name, as text.
    pub closed spec fn last(self) -> Seq<char> {
        self.last_name@
    }

    /// Whether the user owns both names.
    pub closed spec fn owns(self) -> bool {
        self.first_name is Owned && self.last_name is Owned
    }

    /// A user that owns its names.
    pub fn new_owned(first_name: String, last_name: String) -> (user: User<'static>)
        ensures
            user.first() == first_name@,
            user.last() == last_name@,
            user.owns(),
    {
        User { first_name: Cow::Owned(first_name), last_name: Cow::Owned(last_name) }
    }

    /// A user that borrows its names.
    pub fn new_borrowed(first_name: &'a str, last_name: &'a str) -> (user: Self)
        ensures
            user.first() == first_name@,
            user.last() == last_name@,
            !user.owns(),
    {
        Self { first_name: Cow::Borrowed(first_name), last_name: Cow::Borrowed(last_name) }
    }

    pub fn first_name(&self) -> (name: &str)
        ensures
            name@ == self.first(),
    {
        match &self.first_name {
            Cow::Borrowed(name) => name,
            Cow::Owned(name) => name.as_str(),
        }
    }

    pub fn last_name(&self) -> (name: &str)
        ensures
            name@ == self.last(),
    {
        match &self.last_name {
            Cow::Borrowed(name) => name,
            Cow::Owned(name) => name.as_str(),
        }
    }
}

/// A buffer of bytes that borrows its first content and copies it on the first
/// append.
pub struct LazyBuffer<'a> {
    data: Cow<'a, [u8]>,
}

impl<'a> View for LazyBuffer<'a> {
    type V = Seq<u8>;

    closed spec fn view(&self) -> Seq<u8> {
        self.data@
    }
}

impl<'a> LazyBuffer<'a> {
    /// Whether the buffer holds a copy of its own.
    pub closed spec fn owns(self) -> bool {
        self.data is Owned
    }

    /// A buffer over `data`, which it borrows.
    pub fn new(data: &'a [u8]) -> (buffer: Self)
        ensures
            buffer@ == data@,
            !buffer.owns(),
    {
        Self { data: Cow::Borrowed(data) }
    }

    pub fn data(&self) -> (data: &[u8])
        ensures
            data@ == self@,
    {
        match &self.data {
            Cow::Borrowed(data) => data,
            Cow::Owned(data) => data.as_slice(),
        }
    }

    /// Appends `data`. A buffer that borrowed its content until now owns a copy of it
    /// from here on.
    pub fn append(&mut self, data: &[u8])
        ensures
            final(self)@ == old(self)@ + data@,
            final(self).owns(),
    {
        let mut own = Cow::Owned(Vec::new());
        core::mem::swap(&mut self.data, &mut own);
        let mut bytes = match own {
            Cow::Borrowed(data) => slice_to_vec(data),
            Cow::Owned(data) => data,
        };
        bytes.extend_from_slice(data);
        self.data = Cow::Owned(bytes);
    }
}

} // verus!
