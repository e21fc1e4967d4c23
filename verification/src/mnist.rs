use vstd::prelude::*;
use crate::scalar::{Scalar, zero, one};
use crate::model::NetModel;
use crate::dnn::{DNN, run_net, train_net};
use crate::gan::samples_view;
use crate::laws::{same_function, law_answer_determined};

verus! {

/// The number of bytes before the first label of a label file.
pub const LABEL_OFFSET: usize = 8;

/// The number of bytes before the first pixel of an image file.
pub const DATA_OFFSET: usize = 16;

/// The number of pixels in a row of an image.
pub const IMAGE_WIDTH: usize = 28;

/// The number of rows of an image.
pub const IMAGE_HEIGHT: usize = 28;

/// The number of pixels of an image.
pub const IMAGE_SIZE: usize = IMAGE_HEIGHT * IMAGE_WIDTH;

/// The number of classes that a label tells apart.
pub const CLASSES: usize = 10;

/// The number of images that an image file of `len` bytes is read as.
pub open spec fn image_count(len: int) -> int {
    (len - LABEL_OFFSET) / (IMAGE_SIZE as int)
}

/// An image file that can be read: it has its header, and every image that
/// it is read as lies within it.
pub open spec fn readable_data(contents: Seq<u8>) -> bool {
    &&& contents.len() >= LABEL_OFFSET
    &&& (image_count(contents.len() as int) > 0 ==> image_count(contents.len() as int) * IMAGE_SIZE
        + DATA_OFFSET <= contents.len())
}

/// A label file that can be read: it has its header, and every label names
/// one of the classes.
pub open spec fn readable_label(contents: Seq<u8>) -> bool {
    &&& contents.len() >= LABEL_OFFSET
    &&& forall|k: int| LABEL_OFFSET <= k < contents.len() ==> #[trigger] contents[k] < CLASSES
}

/// The brightness that a pixel byte stands for: the byte over 255.
pub open spec fn pixel_spec<S: Scalar>(byte: u8) -> S {
    S::from_int_spec(byte as i32).over_spec(S::from_int_spec(255))
}

/// The vector that a label stands for: one at the label's place, zero at
/// the nine others.
pub open spec fn one_hot<S: Scalar>(label: u8) -> Seq<S> {
    Seq::new(
        CLASSES as nat,
        |c: int|
            if c == label {
                one::<S>()
            } else {
                zero::<S>()
            },
    )
}

/// The images of an image file, each as the brightness of its pixels in the
/// order of the file.
pub fn parse_data<S: Scalar>(contents: &[u8]) -> (ret: Vec<Vec<S>>)
    requires
        readable_data(contents@),
    ensures
        ret@.len() == image_count(contents@.len() as int),
        forall|image: int|
            0 <= image < ret@.len() ==> (#[trigger] ret@[image])@.len() == IMAGE_SIZE,
        forall|image: int, k: int|
            0 <= image < ret@.len() && 0 <= k < IMAGE_SIZE ==> #[trigger] ret@[image]@[k]
                == pixel_spec::<S>(contents@[DATA_OFFSET + image * IMAGE_SIZE + k]),
{
    let total = contents.len();
    let count = (total - LABEL_OFFSET) / IMAGE_SIZE;
    let mut ret: Vec<Vec<S>> = Vec::new();
    let mut image: usize = 0;
    while image < count
        invariant
            total == contents@.len(),
            count == image_count(contents@.len() as int),
            count > 0 ==> count * IMAGE_SIZE + DATA_OFFSET <= contents@.len(),
            image <= count,
            ret@.len() == image,
            forall|j: int| 0 <= j < image ==> (#[trigger] ret@[j])@.len() == IMAGE_SIZE,
            forall|j: int, k: int|
                0 <= j < image && 0 <= k < IMAGE_SIZE ==> #[trigger] ret@[j]@[k] == pixel_spec::<S>(
                    contents@[DATA_OFFSET + j * IMAGE_SIZE + k],
                ),
        decreases count - image,
    {
        assert((image + 1) * IMAGE_SIZE <= count * IMAGE_SIZE) by (nonlinear_arith)
            requires
                image < count,
        ;
        assert((image + 1) * IMAGE_SIZE == image * IMAGE_SIZE + IMAGE_SIZE) by (nonlinear_arith);
        let base = image * IMAGE_SIZE + DATA_OFFSET;
        let mut pixels: Vec<S> = Vec::new();
        let mut k: usize = 0;
        while k < IMAGE_SIZE
            invariant
                total == contents@.len(),
                base == image * IMAGE_SIZE + DATA_OFFSET,
                base + IMAGE_SIZE <= contents@.len(),
                k <= IMAGE_SIZE,
                pixels@.len() == k,
                forall|j: int|
                    0 <= j < k ==> #[trigger] pixels@[j] == pixel_spec::<S>(
                        contents@[DATA_OFFSET + image * IMAGE_SIZE + j],
                    ),
            decreases IMAGE_SIZE - k,
        {
            let byte = contents[base + k];
            pixels.push(S::from_int(byte as i32).over(S::from_int(255)));
            k += 1;
        }
        ret.push(pixels);
        image += 1;
    }
    ret
}

/// The labels of a label file, each as a vector with a one at the label's
/// place.
pub fn parse_label<S: Scalar>(contents: &[u8]) -> (ret: Vec<Vec<S>>)
    requires
        readable_label(contents@),
    ensures
        ret@.len() == contents@.len() - LABEL_OFFSET,
        forall|image: int|
            0 <= image < ret@.len() ==> (#[trigger] ret@[image])@ == one_hot::<S>(
                contents@[image + LABEL_OFFSET],
            ),
{
    let total = contents.len();
    let count = total - LABEL_OFFSET;
    let mut ret: Vec<Vec<S>> = Vec::new();
    let mut image: usize = 0;
    while image < count
        invariant
            total == contents@.len(),
            readable_label(contents@),
            count == contents@.len() - LABEL_OFFSET,
            image <= count,
            ret@.len() == image,
            forall|j: int|
                0 <= j < image ==> (#[trigger] ret@[j])@ == one_hot::<S>(
                    contents@[j + LABEL_OFFSET],
                ),
        decreases count - image,
    {
        let label = contents[image + LABEL_OFFSET];
        let mut marks: Vec<S> = Vec::new();
        let mut class: usize = 0;
        while class < CLASSES
            invariant
                class <= CLASSES,
                marks@.len() == class,
                forall|c: int| 0 <= c < class ==> #[trigger] marks@[c] == zero::<S>(),
            decreases CLASSES - class,
        {
            marks.push(S::from_int(0));
            class += 1;
        }
        marks[label as usize] = S::from_int(1);
        assert(marks@ =~= one_hot::<S>(label));
        ret.push(marks);
        image += 1;
    }
    ret
}

/// The network after it was trained on the first `n` samples in turn. It
/// commits on every tenth sample.
pub open spec fn after_samples<S: Scalar>(
    net: NetModel<S>,
    inputs: Seq<Seq<S>>,
    targets: Seq<Seq<S>>,
    n: nat,
) -> NetModel<S>
    decreases n,
{
    if n == 0 {
        net
    } else {
        after_samples(net, inputs, targets, (n - 1) as nat).train(
            inputs[n - 1],
            targets[n - 1],
            (n - 1) % 10 == 9,
        )
    }
}

/// Trains the network on every sample in turn, committing on every tenth.
pub fn mnist_train<S: Scalar>(net: &mut DNN<S>, inputs: &Vec<Vec<S>>, outputs: &Vec<Vec<S>>)
    requires
        old(net).wf(),
        inputs@.len() <= outputs@.len(),
        forall|k: int|
            0 <= k < inputs@.len() ==> (#[trigger] inputs@[k])@.len() == old(net)@.values[0].len(),
        forall|k: int|
            0 <= k < inputs@.len() ==> (#[trigger] outputs@[k])@.len() == old(
                net,
            )@.values.last().len(),
    ensures
        final(net).wf(),
        old(net)@.same_widths(final(net)@),
        final(net)@ == after_samples(
            old(net)@,
            samples_view(*inputs),
            samples_view(*outputs),
            inputs@.len(),
        ),
{
    let ghost before = net@;
    let mut i: usize = 0;
    while i < inputs.len()
        invariant
            net.wf(),
            before.wf(),
            before.same_widths(net@),
            i <= inputs@.len(),
            inputs@.len() <= outputs@.len(),
            forall|k: int|
                0 <= k < inputs@.len() ==> (#[trigger] inputs@[k])@.len()
                    == before.values[0].len(),
            forall|k: int|
                0 <= k < inputs@.len() ==> (#[trigger] outputs@[k])@.len()
                    == before.values.last().len(),
            net@ == after_samples(
                before,
                samples_view(*inputs),
                samples_view(*outputs),
                i as nat,
            ),
        decreases inputs@.len() - i,
    {
        proof {
            net@.lemma_train_shape(inputs@[i as int]@, outputs@[i as int]@, i % 10 == 9);
        }
        train_net(net, inputs[i].as_slice(), outputs[i].as_slice(), i % 10 == 9);
        i += 1;
    }
}

/// The place of the greatest of the first `n` guesses; of several that are
/// greatest, the first.
pub open spec fn best_guess<S: Scalar>(guess: Seq<S>, n: int) -> int
    decreases n,
{
    if n <= 1 {
        0
    } else {
        let high = best_guess(guess, n - 1);
        if guess[n - 1].greater_spec(guess[high]) {
            n - 1
        } else {
            high
        }
    }
}

/// Whether the network's best guess on `input` is the class that `label`
/// marks with a one.
pub open spec fn is_hit<S: Scalar>(net: NetModel<S>, input: Seq<S>, label: Seq<S>) -> bool {
    let guess = net.answer(input);
    label[best_guess(guess, guess.len() as int)].equals_spec(one::<S>())
}

/// The number of hits among the first `n` samples.
pub open spec fn hits<S: Scalar>(
    net: NetModel<S>,
    inputs: Seq<Seq<S>>,
    labels: Seq<Seq<S>>,
    n: nat,
) -> nat
    decreases n,
{
    if n == 0 {
        0
    } else {
        hits(net, inputs, labels, (n - 1) as nat) + if is_hit(net, inputs[n - 1], labels[n - 1]) {
            1nat
        } else {
            0nat
        }
    }
}

/// The place of the greatest guess; of several that are greatest, the first.
pub fn highest<S: Scalar>(guess: &Vec<S>) -> (high: usize)
    ensures
        high == best_guess(guess@, guess@.len() as int),
        guess@.len() > 0 ==> high < guess@.len(),
{
    let mut high: usize = 0;
    let mut g: usize = 1;
    while g < guess.len()
        invariant
            1 <= g,
            guess@.len() > 0 ==> g <= guess@.len(),
            guess@.len() > 0 ==> high < g,
            guess@.len() == 0 ==> high == 0,
            high == best_guess(guess@, g as int),
        decreases guess@.len() - g,
    {
        if guess[g].greater(guess[high]) {
            high = g;
        }
        g += 1;
    }
    high
}

/// Counts the samples on which the network's best guess is the class that
/// the label marks.
///
/// The network is evaluated on every input in turn, so its nodes end up with
/// the state of the last evaluation; weights and pending gradient are left
/// alone.
pub fn mnist_test<S: Scalar>(net: &mut DNN<S>, inputs: &Vec<Vec<S>>, outputs: &Vec<Vec<S>>) -> (ret:
    usize)
    requires
        old(net).wf(),
        inputs@.len() <= outputs@.len(),
        forall|k: int|
            0 <= k < inputs@.len() ==> (#[trigger] inputs@[k])@.len() == old(net)@.values[0].len(),
        forall|k: int|
            0 <= k < inputs@.len() ==> (#[trigger] outputs@[k])@.len() == old(
                net,
            )@.values.last().len(),
    ensures
        final(net).wf(),
        same_function(old(net)@, final(net)@),
        final(net)@.pending == old(net)@.pending,
        inputs@.len() > 0 ==> final(net)@ == old(net)@.forward(inputs@[inputs@.len() - 1]@),
        inputs@.len() == 0 ==> final(net)@ == old(net)@,
        ret == hits(old(net)@, samples_view(*inputs), samples_view(*outputs), inputs@.len()),
{
    let ghost before = net@;
    let mut ret: usize = 0;
    let mut i: usize = 0;
    while i < inputs.len()
        invariant
            net.wf(),
            before.wf(),
            same_function(before, net@),
            net@.pending == before.pending,
            i <= inputs@.len(),
            inputs@.len() <= outputs@.len(),
            forall|k: int|
                0 <= k < inputs@.len() ==> (#[trigger] inputs@[k])@.len()
                    == before.values[0].len(),
            forall|k: int|
                0 <= k < inputs@.len() ==> (#[trigger] outputs@[k])@.len()
                    == before.values.last().len(),
            i > 0 ==> net@ == before.forward(inputs@[i - 1]@),
            i == 0 ==> net@ == before,
            ret <= i,
            ret == hits(before, samples_view(*inputs), samples_view(*outputs), i as nat),
        decreases inputs@.len() - i,
    {
        let ghost held = net@;
        proof {
            held.lemma_forward_shape(inputs@[i as int]@);
            law_answer_determined(before, held, inputs@[i as int]@);
        }
        let guess = run_net(net, inputs[i].as_slice());
        let high = highest(&guess);
        if outputs[i][high].equals(S::from_int(1)) {
            ret += 1;
        }
        i += 1;
    }
    ret
}

} // verus!
