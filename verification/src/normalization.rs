//! Whether the words of a list agree in their Unicode normal form. Words
//! that look alike and differ in their normal form are different words to a
//! machine, which a list of mixed forms invites.

use crate::text::texts;
use unicode_normalization::{is_nfc_quick, is_nfd_quick, is_nfkc_quick, is_nfkd_quick, IsNormalized};
use vstd::prelude::*;

verus! {

/// A Unicode normal form.
#[derive(Clone, Copy, Debug, PartialEq, Eq, Structural)]
pub enum NormalForm {
    Nfc,
    Nfd,
    Nfkc,
    Nfkd,
}

/// Whether a quick look at a text finds it surely in NFC: whether
/// `is_nfc_quick` of the `unicode-normalization` crate answers `Yes`.
pub uninterp spec fn surely_nfc(text: Seq<char>) -> bool;

/// Whether `is_nfd_quick` of the `unicode-normalization` crate answers
/// `Yes` for a text.
pub uninterp spec fn surely_nfd(text: Seq<char>) -> bool;

/// Whether `is_nfkc_quick` of the `unicode-normalization` crate answers
/// `Yes` for a text.
pub uninterp spec fn surely_nfkc(text: Seq<char>) -> bool;

/// Whether `is_nfkd_quick` of the `unicode-normalization` crate answers
/// `Yes` for a text.
pub uninterp spec fn surely_nfkd(text: Seq<char>) -> bool;

/// Whether `is_nfc_quick` of the `unicode-normalization` crate answers
/// `Yes` for the characters of `text`, and neither `No` nor `Maybe`.
#[verifier::external_body]
pub(crate) fn is_surely_nfc(text: &str) -> (yes: bool)
    ensures
        yes == surely_nfc(text@),
{
    match is_nfc_quick(text.chars()) {
        IsNormalized::Yes => true,
        IsNormalized::No => false,
        IsNormalized::Maybe => false,
    }
}

/// Whether `is_nfd_quick` of the `unicode-normalization` crate answers
/// `Yes` for the characters of `text`, and neither `No` nor `Maybe`.
#[verifier::external_body]
pub(crate) fn is_surely_nfd(text: &str) -> (yes: bool)
    ensures
        yes == surely_nfd(text@),
{
    match is_nfd_quick(text.chars()) {
        IsNormalized::Yes => true,
        IsNormalized::No => false,
        IsNormalized::Maybe => false,
    }
}

/// Whether `is_nfkc_quick` of the `unicode-normalization` crate answers
/// `Yes` for the characters of `text`, and neither `No` nor `Maybe`.
#[verifier::external_body]
pub(crate) fn is_surely_nfkc(text: &str) -> (yes: bool)
    ensures
        yes == surely_nfkc(text@),
{
    match is_nfkc_quick(text.chars()) {
        IsNormalized::Yes => true,
        IsNormalized::No => false,
        IsNormalized::Maybe => false,
    }
}

/// Whether `is_nfkd_quick` of the `unicode-normalization` crate answers
/// `Yes` for the characters of `text`, and neither `No` nor `Maybe`.
#[verifier::external_body]
pub(crate) fn is_surely_nfkd(text: &str) -> (yes: bool)
    ensures
        yes == surely_nfkd(text@),
{
    match is_nfkd_quick(text.chars()) {
        IsNormalized::Yes => true,
        IsNormalized::No => false,
        IsNormalized::Maybe => false,
    }
}

/// The form that a text counts for, given whether it is surely in each of
/// the four: the first of NFC, NFD, NFKC and NFKD that it is surely in.
pub open spec fn first_form(nfc: bool, nfd: bool, nfkc: bool, nfkd: bool) -> Option<NormalForm> {
    if nfc {
        Some(NormalForm::Nfc)
    } else if nfd {
        Some(NormalForm::Nfd)
    } else if nfkc {
        Some(NormalForm::Nfkc)
    } else if nfkd {
        Some(NormalForm::Nfkd)
    } else {
        None
    }
}

/// The form that a text counts for, if it is surely in any.
pub open spec fn form_of(text: Seq<char>) -> Option<NormalForm> {
    first_form(surely_nfc(text), surely_nfd(text), surely_nfkc(text), surely_nfkd(text))
}

/// Whether some text of the list counts for `form`.
pub open spec fn has_form(list: Seq<Seq<char>>, form: NormalForm) -> bool {
    exists|i: int| 0 <= i < list.len() && form_of(#[trigger] list[i]) == Some(form)
}

/// Whether the texts of the list that count for a form count for one and
/// the same, and at least one text does.
pub open spec fn uniformly_normalized(list: Seq<Seq<char>>) -> bool {
    exists|form: NormalForm| #[trigger]
        has_form(list, form) && forall|other: NormalForm| #[trigger]
            has_form(list, other) ==> other == form
}

/// The form that a text counts for, given whether it is surely in each of
/// the four.
pub fn form_from_answers(nfc: bool, nfd: bool, nfkc: bool, nfkd: bool) -> (form: Option<
    NormalForm,
>)
    ensures
        form == first_form(nfc, nfd, nfkc, nfkd),
{
    if nfc {
        Some(NormalForm::Nfc)
    } else if nfd {
        Some(NormalForm::Nfd)
    } else if nfkc {
        Some(NormalForm::Nfkc)
    } else if nfkd {
        Some(NormalForm::Nfkd)
    } else {
        None
    }
}

/// The form that `word` counts for. A later form is asked after only where
/// the earlier ones were not answered with `Yes`.
pub fn normal_form(word: &str) -> (form: Option<NormalForm>)
    ensures
        form == form_of(word@),
{
    if is_surely_nfc(word) {
        form_from_answers(true, false, false, false)
    } else if is_surely_nfd(word) {
        form_from_answers(false, true, false, false)
    } else if is_surely_nfkc(word) {
        form_from_answers(false, false, true, false)
    } else {
        form_from_answers(false, false, false, is_surely_nfkd(word))
    }
}

/// Whether the words of the list agree in their normal form: at least one
/// word counts for a form, and no two words count for different forms.
pub fn uniform_unicode_normalization(list: &Vec<String>) -> (uniform: bool)
    ensures
        uniform == uniformly_normalized(texts(list@)),
{
    let mut found: Option<NormalForm> = None;
    let mut i: usize = 0;
    while i < list.len()
        invariant
            i <= list.len(),
            found is None ==> forall|k: int| 0 <= k < i ==> form_of(#[trigger] list[k]@) is None,
            found matches Some(form) ==> (exists|k: int|
                0 <= k < i && form_of(#[trigger] list[k]@) == Some(form)) && forall|k: int|
                0 <= k < i && form_of(#[trigger] list[k]@) is Some ==> form_of(list[k]@) == Some(
                    form,
                ),
        decreases list.len() - i,
    {
        let form = normal_form(list[i].as_str());
        match (found, form) {
            (None, Some(_)) => {
                found = form;
            },
            (Some(first), Some(second)) => {
                if first != second {
                    proof {
                        let all = texts(list@);
                        let k = choose|k: int|
                            0 <= k < i && form_of(#[trigger] list[k]@) == Some(first);
                        assert(form_of(all[k]) == Some(first));
                        assert(form_of(all[i as int]) == Some(second));
                        assert(has_form(all, first));
                        assert(has_form(all, second));
                    }
                    return false;
                }
            },
            _ => {},
        }
        i = i + 1;
    }
    proof {
        let all = texts(list@);
        match found {
            None => {
                assert forall|form: NormalForm| !has_form(all, form) by {
                    if has_form(all, form) {
                        let k = choose|k: int|
                            0 <= k < all.len() && form_of(#[trigger] all[k]) == Some(form);
                        assert(form_of(list[k]@) is None);
                    }
                }
            },
            Some(form) => {
                let k = choose|k: int| 0 <= k < i && form_of(#[trigger] list[k]@) == Some(form);
                assert(form_of(all[k]) == Some(form));
                assert(has_form(all, form));
                assert forall|other: NormalForm| #[trigger]
                    has_form(all, other) implies other == form by {
                    let j = choose|j: int|
                        0 <= j < all.len() && form_of(#[trigger] all[j]) == Some(other);
                    assert(form_of(list[j]@) is Some);
                }
            },
        }
    }
    found.is_some()
}

} // verus!
