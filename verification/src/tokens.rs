//! The fixed tokens of the template language, each as a sequence of
//! characters for contracts and as an array for the parsers.

use vstd::prelude::*;

verus! {

/// The opening of a tag, `<!--`.
pub open spec fn tag_open() -> Seq<char> {
    seq!['<', '!', '-', '-']
}

/// The opening of a tag, `<!--`, to search for.
pub fn tag_open_chars() -> (r: [char; 4])
    ensures
        r@ == tag_open(),
{
    let r = ['<', '!', '-', '-'];
    assert(r@ =~= tag_open());
    r
}

/// The closing of a tag, `-->`.
pub open spec fn tag_close() -> Seq<char> {
    seq!['-', '-', '>']
}

/// The closing of a tag, `-->`, to search for.
pub fn tag_close_chars() -> (r: [char; 3])
    ensures
        r@ == tag_close(),
{
    let r = ['-', '-', '>'];
    assert(r@ =~= tag_close());
    r
}

/// The word `if`.
pub open spec fn if_word() -> Seq<char> {
    seq!['i', 'f']
}

/// The word `if`, to search for.
pub fn if_word_chars() -> (r: [char; 2])
    ensures
        r@ == if_word(),
{
    let r = ['i', 'f'];
    assert(r@ =~= if_word());
    r
}

/// The word `endif`.
pub open spec fn endif_word() -> Seq<char> {
    seq!['e', 'n', 'd', 'i', 'f']
}

/// The word `endif`, to search for.
pub fn endif_word_chars() -> (r: [char; 5])
    ensures
        r@ == endif_word(),
{
    let r = ['e', 'n', 'd', 'i', 'f'];
    assert(r@ =~= endif_word());
    r
}

/// `(`.
pub open spec fn open_paren() -> Seq<char> {
    seq!['(']
}

/// `(`, to search for.
pub fn open_paren_chars() -> (r: [char; 1])
    ensures
        r@ == open_paren(),
{
    let r = ['('];
    assert(r@ =~= open_paren());
    r
}

/// `)`.
pub open spec fn close_paren() -> Seq<char> {
    seq![')']
}

/// `)`, to search for.
pub fn close_paren_chars() -> (r: [char; 1])
    ensures
        r@ == close_paren(),
{
    let r = [')'];
    assert(r@ =~= close_paren());
    r
}

/// The operator `||`.
pub open spec fn or_sign() -> Seq<char> {
    seq!['|', '|']
}

/// The operator `||`, to search for.
pub fn or_sign_chars() -> (r: [char; 2])
    ensures
        r@ == or_sign(),
{
    let r = ['|', '|'];
    assert(r@ =~= or_sign());
    r
}

/// The operator `&&`.
pub open spec fn and_sign() -> Seq<char> {
    seq!['&', '&']
}

/// The operator `&&`, to search for.
pub fn and_sign_chars() -> (r: [char; 2])
    ensures
        r@ == and_sign(),
{
    let r = ['&', '&'];
    assert(r@ =~= and_sign());
    r
}

/// The operator `!`.
pub open spec fn not_sign() -> Seq<char> {
    seq!['!']
}

/// The operator `!`, to search for.
pub fn not_sign_chars() -> (r: [char; 1])
    ensures
        r@ == not_sign(),
{
    let r = ['!'];
    assert(r@ =~= not_sign());
    r
}

/// `=`.
pub open spec fn equals_sign() -> Seq<char> {
    seq!['=']
}

/// `=`, to search for.
pub fn equals_sign_chars() -> (r: [char; 1])
    ensures
        r@ == equals_sign(),
{
    let r = ['='];
    assert(r@ =~= equals_sign());
    r
}

/// `"`.
pub open spec fn double_quote() -> Seq<char> {
    seq!['"']
}

/// `"`, to search for.
pub fn double_quote_chars() -> (r: [char; 1])
    ensures
        r@ == double_quote(),
{
    let r = ['"'];
    assert(r@ =~= double_quote());
    r
}

/// The keyword `exists`.
pub open spec fn exists_word() -> Seq<char> {
    seq!['e', 'x', 'i', 's', 't', 's']
}

/// The keyword `exists`, to search for.
pub fn exists_word_chars() -> (r: [char; 6])
    ensures
        r@ == exists_word(),
{
    let r = ['e', 'x', 'i', 's', 't', 's'];
    assert(r@ =~= exists_word());
    r
}

/// The keyword `lang`.
pub open spec fn lang_word() -> Seq<char> {
    seq!['l', 'a', 'n', 'g']
}

/// The keyword `lang`, to search for.
pub fn lang_word_chars() -> (r: [char; 4])
    ensures
        r@ == lang_word(),
{
    let r = ['l', 'a', 'n', 'g'];
    assert(r@ =~= lang_word());
    r
}

/// The keyword `env`.
pub open spec fn env_word() -> Seq<char> {
    seq!['e', 'n', 'v']
}

/// The keyword `env`, to search for.
pub fn env_word_chars() -> (r: [char; 3])
    ensures
        r@ == env_word(),
{
    let r = ['e', 'n', 'v'];
    assert(r@ =~= env_word());
    r
}

} // verus!
