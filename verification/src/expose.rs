//! Exposure requests handed to the camera controller.

use crate::decimal::{digits_of, push_digits};
use crate::decimal::lemma_digits_of;
use crate::fields::{fields_of, is_space, is_word, lemma_two_words, split_fields};
use vstd::prelude::*;
use vstd::string::StringExecFns;

verus! {

/// The kind of exposure a camera is asked to take.
#[derive(Clone, Copy, Debug, PartialEq, Eq, Structural)]
pub enum ImageType {
    Light,
    Dark,
}

/// The words that ask the camera controller for one exposure of `duration`
/// seconds, to be saved at `savepath`.
pub open spec fn exposure_words(
    kind: ImageType,
    duration: Seq<char>,
    savepath: Seq<char>,
) -> Seq<Seq<char>> {
    match kind {
        ImageType::Light => seq!["expose"@, "--duration"@, duration, "--file"@, savepath],
        ImageType::Dark => seq![
            "expose"@,
            "--dark"@,
            "--duration"@,
            duration,
            "--file"@,
            savepath,
        ],
    }
}

/// The arguments with which the camera controller is started for one
/// exposure. `duration` is the exposure time in seconds, as it is to be
/// spelled on the command line.
pub fn exposure_arguments(kind: ImageType, duration: &str, savepath: &str) -> (arguments: Vec<
    String,
>)
    ensures
        arguments.deep_view() == exposure_words(kind, duration@, savepath@),
{
    let mut arguments: Vec<String> = Vec::new();
    arguments.push("expose".to_owned());
    match kind {
        ImageType::Light => {},
        ImageType::Dark => {
            arguments.push("--dark".to_owned());
        },
    }
    arguments.push("--duration".to_owned());
    arguments.push(duration.to_owned());
    arguments.push("--file".to_owned());
    arguments.push(savepath.to_owned());
    assert(arguments.deep_view() =~= exposure_words(kind, duration@, savepath@));
    arguments
}

/// The image that an exposure reports to have saved. The report is two
/// words, such as `Saved /data/image.fits`, and the second is the path of
/// the image. `None` where the report has other than two words.
pub fn saved_path<'a>(report: &'a [u8]) -> (path: Option<&'a [u8]>)
    ensures
        path is Some <==> fields_of(report@).len() == 2,
        path is Some ==> path->Some_0@ == fields_of(report@)[1],
{
    match split_fields(report) {
        Some(fields) => {
            if fields.len() == 2 {
                Some(fields.field(report, 1))
            } else {
                None
            }
        },
        None => None,
    }
}

/// `front` followed by `back`.
fn joined(front: &str, back: &str) -> (both: String)
    ensures
        both@ == front@ + back@,
{
    let mut both = front.to_owned();
    both.append(back);
    both
}

/// The words that ask the exposure script in `directory` for one light
/// exposure of `duration` seconds at the tilt `target`, reached at the raw
/// tilt `achieved`.
pub open spec fn script_words(
    directory: Seq<char>,
    duration: Seq<char>,
    target: Seq<char>,
    achieved: Seq<char>,
) -> Seq<Seq<char>> {
    seq![
        "/nologo"@,
        directory + "\\VBScript\\Expose.vbs"@,
        "light"@,
        duration,
        "/tiltgoal:"@ + target,
        "/rawtilt:"@ + achieved,
    ]
}

/// The arguments with which the script host is started for one light
/// exposure. The numbers are given as they are to be spelled on the command
/// line.
pub fn script_arguments(directory: &str, duration: &str, target: &str, achieved: &str) -> (arguments:
    Vec<String>)
    ensures
        arguments.deep_view() == script_words(directory@, duration@, target@, achieved@),
{
    let mut arguments: Vec<String> = Vec::new();
    arguments.push("/nologo".to_owned());
    arguments.push(joined(directory, "\\VBScript\\Expose.vbs"));
    arguments.push("light".to_owned());
    arguments.push(duration.to_owned());
    arguments.push(joined("/tiltgoal:", target));
    arguments.push(joined("/rawtilt:", achieved));
    assert(arguments.deep_view() =~= script_words(directory@, duration@, target@, achieved@));
    arguments
}

/// The directory in which the images of a simulated run are expected,
/// with the stem of their names.
pub open spec fn simulated_stem() -> Seq<u8> {
    seq![
        47u8, 104, 111, 109, 101, 47, 106, 115, 47, 112, 114, 111, 103, 114, 97, 109, 115, 47, 100,
        114, 97, 103, 111, 110, 102, 108, 121, 47, 100, 97, 116, 97, 47, 76, 97, 115, 101, 114, 67,
        97, 108, 105, 98, 114, 97, 116, 105, 111, 110, 47, 68, 82, 65, 71, 79, 78, 70, 76, 89, 51,
        48, 49, 95,
    ]
}

/// The path of image number `index` of a simulated run:
/// `/home/js/programs/dragonfly/data/LaserCalibration/DRAGONFLY301_`, the
/// number, and `_light.fits`.
pub open spec fn simulated_image(index: nat) -> Seq<u8> {
    simulated_stem() + digits_of(index) + seq![
        95u8, 108, 105, 103, 104, 116, 46, 102, 105, 116, 115,
    ]
}

/// What an exposure of a simulated run reports: the word `Saved`, a blank,
/// and the path of image number `index`.
pub open spec fn simulated_words(index: nat) -> Seq<u8> {
    seq![83u8, 97, 118, 101, 100, 32] + simulated_image(index)
}

/// What exposure number `index` of a simulated run reports instead of
/// taking an image.
pub fn simulated_report(index: u64) -> (report: Vec<u8>)
    ensures
        report@ == simulated_words(index as nat),
{
    let mut report: Vec<u8> = vec![
        83u8, 97, 118, 101, 100, 32, 47, 104, 111, 109, 101, 47, 106, 115, 47, 112, 114, 111, 103,
        114, 97, 109, 115, 47, 100, 114, 97, 103, 111, 110, 102, 108, 121, 47, 100, 97, 116, 97, 47,
        76, 97, 115, 101, 114, 67, 97, 108, 105, 98, 114, 97, 116, 105, 111, 110, 47, 68, 82, 65,
        71, 79, 78, 70, 76, 89, 51, 48, 49, 95,
    ];
    let ghost head = report@;
    push_digits(index, &mut report);
    let ghost middle = report@;
    let tail: Vec<u8> = vec![95u8, 108, 105, 103, 104, 116, 46, 102, 105, 116, 115];
    let mut i: usize = 0;
    while i < tail.len()
        invariant
            i <= tail@.len(),
            report@ == middle + tail@.take(i as int),
        decreases tail@.len() - i,
    {
        report.push(tail[i]);
        proof {
            assert(tail@.take(i + 1) =~= tail@.take(i as int).push(tail@[i as int]));
            assert(report@ =~= middle + tail@.take(i + 1));
        }
        i = i + 1;
    }
    proof {
        assert(tail@.take(i as int) =~= tail@);
        assert(head =~= seq![83u8, 97, 118, 101, 100, 32] + simulated_stem());
        assert(report@ =~= simulated_words(index as nat));
    }
    report
}

/// The image that a simulated exposure reports is the image of its
/// number.
pub proof fn law_simulated_report_names_its_image(index: nat)
    ensures
        fields_of(simulated_words(index)).len() == 2,
        fields_of(simulated_words(index))[1] == simulated_image(index),
{
    let saved = seq![83u8, 97, 118, 101, 100];
    let image = simulated_image(index);
    let stem = simulated_stem();
    let number = digits_of(index);
    let tail = seq![95u8, 108, 105, 103, 104, 116, 46, 102, 105, 116, 115];
    lemma_digits_of(index);
    assert(is_word(saved));
    assert forall|i: int| 0 <= i < image.len() implies !is_space(#[trigger] image[i]) by {
        if i < stem.len() {
            assert(image[i] == stem[i]);
        } else if i < stem.len() + number.len() {
            assert(image[i] == number[i - stem.len()]);
            assert(crate::decimal::is_digit(number[i - stem.len()]));
        } else {
            assert(image[i] == tail[i - stem.len() - number.len()]);
        }
    }
    assert(simulated_words(index) =~= saved + seq![32u8] + image);
    lemma_two_words(saved, image);
}

} // verus!
