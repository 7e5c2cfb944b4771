use vstd::prelude::*;

pub mod beorc;
pub mod def;
pub mod naudr;

use crate::def::vmatrix::transposed;
use crate::def::vmatrix::Vmatrix;
use crate::naudr::accumulate::accumulated_cell;
use crate::naudr::accumulate::get_accumulation;
use crate::naudr::accumulate::MAXIMUM_REDUCTIONS_DECORNERING;
use crate::naudr::bloat::bloated;
use crate::naudr::bloat::write_bloats;
use crate::naudr::closed_curves::curves_from;
use crate::naudr::closed_curves::get_curves;
use crate::naudr::closed_curves::mark_curve_points;
use crate::naudr::closed_curves::marks_from;
use crate::naudr::closed_curves::CurveFailure;
use crate::naudr::closed_curves::GlobalCurveData;
use crate::naudr::operate::exclusive;
use crate::naudr::recurrent::recurrent_marks;
use crate::naudr::recurrent::recurrent_trace;
use vstd::string::StringSliceAdditionalSpecFns;

verus! {

/// The digits among the bytes of a text, in order, each as its value.
pub open spec fn digits_of(bytes: Seq<u8>) -> Seq<u32>
    decreases bytes.len(),
{
    if bytes.len() == 0 {
        Seq::empty()
    } else if 48 <= bytes.last() <= 57 {
        digits_of(bytes.drop_last()).push((bytes.last() - 48) as u32)
    } else {
        digits_of(bytes.drop_last())
    }
}

/// The data that a text holds: every digit stands for one entry, and all other characters
/// are passed over.
pub fn text_to_int_vector(file_content: &str) -> (all_data: Vec<u32>)
    ensures
        all_data@ == digits_of(file_content.spec_bytes()),
{
    let bytes = file_content.as_bytes();
    let mut all_data: Vec<u32> = Vec::new();
    let mut k: usize = 0;
    while k < bytes.len()
        invariant
            k <= bytes@.len(),
            bytes@ == file_content.spec_bytes(),
            all_data@ == digits_of(bytes@.subrange(0, k as int)),
        decreases bytes@.len() - k,
    {
        let character: u8 = bytes[k];
        proof {
            let upto = bytes@.subrange(0, k + 1);
            assert(upto.drop_last() =~= bytes@.subrange(0, k as int));
            assert(upto.last() == character);
        }
        if 48 <= character && character <= 57 {
            all_data.push((character - 48) as u32);
        }
        k += 1;
    }
    assert(bytes@.subrange(0, bytes@.len() as int) =~= bytes@);

    all_data
}

/// The data that a text holds, as a matrix with rows of `size` entries.
pub fn text_to_vmatrix(file_content: &str, size: usize) -> (matrix: Vmatrix<u32>)
    ensures
        matrix.size == size,
        matrix@.cells == digits_of(file_content.spec_bytes()),
{
    Vmatrix::<u32>::build(size, text_to_int_vector(file_content))
}

/// What [get_accumulation] makes of a matrix: every entry counts the reductions that it
/// survived.
pub open spec fn accumulation(cells: Seq<u32>, size: int) -> Seq<u32> {
    Seq::new(
        cells.len(),
        |k: int|
            accumulated_cell(cells, size, k, MAXIMUM_REDUCTIONS_DECORNERING as nat) as u32,
    )
}

/// What is left of a matrix when its long straight runs are taken out: first those along the
/// rows, then, on the transposed matrix, those along the columns.
pub open spec fn subtractions(cells: Seq<u32>, size: int, recurrency: int) -> Seq<u32> {
    let vertical_dominant = recurrent_marks(cells, recurrency);
    let horizont_dominant = recurrent_marks(transposed(cells, size), recurrency);
    transposed(
        exclusive(transposed(exclusive(cells, vertical_dominant), size), horizont_dominant),
        size,
    )
}

/// A matrix of zeros.
pub open spec fn zeros(length: nat) -> Seq<u32> {
    Seq::new(length, |k: int| 0u32)
}

/// The entry at which a walk gave up while the curves of a matrix were drawn and their
/// points marked, if one did.
pub open spec fn stage_failure(cells: Seq<u32>, size: int, dominant_curve: bool) -> Option<int> {
    let drawn = curves_from(cells, size, zeros(cells.len()), 0);
    if drawn.1 is Some {
        drawn.1
    } else {
        marks_from(drawn.0, size, dominant_curve, zeros(cells.len()), 0).1
    }
}

/// The entry at which a walk gave up while the inflexions of a matrix were sought, if one
/// did: first in what is left without the straight runs, then in the runs along the rows,
/// then in the runs along the columns.
pub open spec fn inflexion_failure(cells: Seq<u32>, size: int, recurrency: int) -> Option<int> {
    let first = stage_failure(subtractions(cells, size, recurrency), size, false);
    let second = stage_failure(recurrent_marks(cells, recurrency), size, true);
    if first is Some {
        first
    } else if second is Some {
        second
    } else {
        stage_failure(recurrent_marks(transposed(cells, size), recurrency), size, true)
    }
}

/// The entry at which a walk gave up while the dominant curves of a matrix were sought, if
/// one did: first in the runs along the rows, then in the runs along the columns.
pub open spec fn dominant_failure(cells: Seq<u32>, size: int, recurrency: int) -> Option<int> {
    let first = stage_failure(recurrent_marks(cells, recurrency), size, true);
    if first is Some {
        first
    } else {
        stage_failure(recurrent_marks(transposed(cells, size), recurrency), size, true)
    }
}

/// Whether the shared data is as it was made: two matrices of zeros, the first curve
/// numbered 1 and no point ordered.
pub open spec fn is_blank(data: GlobalCurveData, size: int) -> bool {
    &&& data.wf()
    &&& data.row_size == size
    &&& forall|k: int| 0 <= k < size * size ==> data.curves_global_output@.cells[k] == 0
    &&& forall|k: int| 0 <= k < size * size ==> data.curves_global_orderd@.cells[k] == 0
    &&& data.global_output_number == 1
    &&& data.global_orderd_cardin == 0
}

/// A matrix of zeros stays one when transposed.
proof fn blank_stays_blank(before: GlobalCurveData, after: GlobalCurveData)
    requires
        is_blank(before, before.row_size as int),
        after.wf(),
        after.row_size == before.row_size,
        after.curves_global_output@.cells == transposed(
            before.curves_global_output@.cells,
            before.row_size as int,
        ),
        after.curves_global_orderd@.cells == transposed(
            before.curves_global_orderd@.cells,
            before.row_size as int,
        ),
        after.global_output_number == before.global_output_number,
        after.global_orderd_cardin == before.global_orderd_cardin,
    ensures
        is_blank(after, before.row_size as int),
{
    let size = before.row_size as int;
    assert forall|k: int| 0 <= k < size * size implies after.curves_global_output@.cells[k] == 0
        && after.curves_global_orderd@.cells[k] == 0 by {
        crate::def::vmatrix::mirrored_index(k, size);
    }
}

/// See [get_accumulation]. The sample size is not consulted: the matrix brings its own.
pub fn get_accumulations_from_data(input_data: Vmatrix<u32>, sample_size: usize) -> (result: Vmatrix<
    u32,
>)
    requires
        input_data.wf(),
    ensures
        result.size == input_data.size,
        result@.cells == accumulation(input_data@.cells, input_data.size as int),
{
    let result = get_accumulation(&input_data);
    proof {
        assert forall|k: int| 0 <= k < result@.cells.len() implies result@.cells[k] == accumulation(
            input_data@.cells,
            input_data.size as int,
        )[k] by {
            crate::naudr::accumulate::accumulation_is_bounded(
                input_data@.cells,
                input_data.size as int,
                k,
                MAXIMUM_REDUCTIONS_DECORNERING as nat,
            );
        }
        assert(result@.cells =~= accumulation(input_data@.cells, input_data.size as int));
    }
    result
}

/// Take the long straight runs out of a matrix. A run is a stretch of at least
/// `dominants_recurrency` entries other than zero along a row or along a column; what is left
/// holds 1 where the matrix holds data outside every such run, and 0 elsewhere. The sample
/// size is not consulted.
pub fn get_substractions_from_data(
    accumulations: Vmatrix<u32>,
    sample_size: usize,
    dominants_recurrency: usize,
) -> (substraction_result: Vmatrix<u32>)
    requires
        accumulations.wf(),
    ensures
        substraction_result.size == accumulations.size,
        substraction_result@.cells == subtractions(
            accumulations@.cells,
            accumulations.size as int,
            dominants_recurrency as int,
        ),
{
    let accumulations_transposed = accumulations.transposed_copy();

    let vertical_dominant = recurrent_trace(&accumulations, dominants_recurrency);
    let horizont_dominant = recurrent_trace(&accumulations_transposed, dominants_recurrency);

    subtract_dominants(&accumulations, &vertical_dominant, &horizont_dominant)
}

/// Take the runs along the rows out of a matrix, then, on the transposed matrix, the runs
/// along the columns.
fn subtract_dominants(
    input_data: &Vmatrix<u32>,
    vertical_dominant: &Vmatrix<u32>,
    horizont_dominant: &Vmatrix<u32>,
) -> (subtractions: Vmatrix<u32>)
    requires
        input_data.wf(),
        vertical_dominant@.cells.len() == input_data@.cells.len(),
        horizont_dominant@.cells.len() == input_data@.cells.len(),
    ensures
        subtractions.size == input_data.size,
        subtractions@.cells == transposed(
            exclusive(
                transposed(exclusive(input_data@.cells, vertical_dominant@.cells), input_data.size as int),
                horizont_dominant@.cells,
            ),
            input_data.size as int,
        ),
{
    let mut subtractions: Vmatrix<u32> = input_data.xor(vertical_dominant);
    subtractions.transpose();
    subtractions = subtractions.xor(horizont_dominant);
    subtractions.transpose();

    subtractions
}

/// Draw the curves of a matrix and mark their points, on matrices of their own.
fn trace_stage(global_curve_data: &mut GlobalCurveData, cells: &Vmatrix<u32>, dominant_curve: bool) -> (outcome:
    Result<(), CurveFailure>)
    requires
        cells.wf(),
        cells.size == old(global_curve_data).row_size,
        is_blank(*old(global_curve_data), cells.size as int),
    ensures
        is_blank(*final(global_curve_data), cells.size as int),
        match outcome {
            Ok(()) => stage_failure(cells@.cells, cells.size as int, dominant_curve) is None,
            Err(failure) => stage_failure(cells@.cells, cells.size as int, dominant_curve) == Some(
                failure.index as int,
            ),
        },
{
    let sample_size: usize = cells.size;
    let length: usize = cells.data.len();
    assert(sample_size * sample_size == length);
    assert(zeros(cells@.cells.len()) =~= Seq::new(cells@.cells.len(), |k: int| 0u32));
    let curves = match get_curves(global_curve_data, cells) {
        Ok(curves) => curves,
        Err(failure) => {
            return Err(failure);
        },
    };
    let mut result_set = Vmatrix::<u32>::initialize(sample_size, 0);
    assert(result_set@.cells =~= zeros(cells@.cells.len()));
    proof {
        if length > 0 {
            assert(sample_size > 0) by (nonlinear_arith)
                requires
                    sample_size * sample_size == length,
                    length > 0,
            ;
        }
    }
    mark_curve_points(&curves, &mut result_set, global_curve_data, dominant_curve)
}

/// See [get_complete_inflexions_from_data]. The data comes as a plain vector.
pub fn get_inflexions_from_vector(
    input_data: Vec<u32>,
    sample_size: usize,
    dominants_recurrency: usize,
) -> (outcome: Result<GlobalCurveData, CurveFailure>)
    requires
        input_data@.len() == sample_size * sample_size,
    ensures
        match outcome {
            Ok(data) => is_blank(data, sample_size as int) && inflexion_failure(
                accumulation(input_data@, sample_size as int),
                sample_size as int,
                dominants_recurrency as int,
            ) is None,
            Err(failure) => inflexion_failure(
                accumulation(input_data@, sample_size as int),
                sample_size as int,
                dominants_recurrency as int,
            ) == Some(failure.index as int),
        },
{
    let format_input_data = Vmatrix::build(sample_size, input_data);
    get_complete_inflexions_from_data(&format_input_data, sample_size, dominants_recurrency)
}

/// Seek the inflexions of a set of data: accumulate it, take the long straight runs out, and
/// walk the curves of what is left, of the runs along the rows and of the runs along the
/// columns. The walks work on matrices of their own, so the shared data comes back as it was
/// made. Fails with the entry at which a walk gave up.
pub fn get_complete_inflexions_from_data(
    input_data: &Vmatrix<u32>,
    sample_size: usize,
    dominants_recurrency: usize,
) -> (outcome: Result<GlobalCurveData, CurveFailure>)
    requires
        input_data.wf(),
        input_data.size == sample_size,
    ensures
        match outcome {
            Ok(data) => is_blank(data, sample_size as int) && inflexion_failure(
                accumulation(input_data@.cells, sample_size as int),
                sample_size as int,
                dominants_recurrency as int,
            ) is None,
            Err(failure) => inflexion_failure(
                accumulation(input_data@.cells, sample_size as int),
                sample_size as int,
                dominants_recurrency as int,
            ) == Some(failure.index as int),
        },
{
    let accumulations: Vmatrix<u32> = get_accumulations_from_data(
        input_data.normal_copy(),
        sample_size,
    );
    get_inflexions_no_reduction(&accumulations, sample_size, dominants_recurrency)
}

/// See [get_inflexions_no_reduction]. The data comes as a plain vector.
pub fn get_curve_no_reductions(
    input_data: Vec<u32>,
    sample_size: usize,
    dominants_recurrency: usize,
) -> (outcome: Result<GlobalCurveData, CurveFailure>)
    requires
        input_data@.len() == sample_size * sample_size,
    ensures
        match outcome {
            Ok(data) => is_blank(data, sample_size as int) && inflexion_failure(
                input_data@,
                sample_size as int,
                dominants_recurrency as int,
            ) is None,
            Err(failure) => inflexion_failure(
                input_data@,
                sample_size as int,
                dominants_recurrency as int,
            ) == Some(failure.index as int),
        },
{
    let format_input_data = Vmatrix::build(sample_size, input_data);
    get_inflexions_no_reduction(&format_input_data, sample_size, dominants_recurrency)
}

/// Seek the inflexions of a set of data as it stands, without accumulating it first. See
/// [get_complete_inflexions_from_data].
pub fn get_inflexions_no_reduction(
    input_data: &Vmatrix<u32>,
    sample_size: usize,
    dominants_recurrency: usize,
) -> (outcome: Result<GlobalCurveData, CurveFailure>)
    requires
        input_data.wf(),
        input_data.size == sample_size,
    ensures
        match outcome {
            Ok(data) => is_blank(data, sample_size as int) && inflexion_failure(
                input_data@.cells,
                sample_size as int,
                dominants_recurrency as int,
            ) is None,
            Err(failure) => inflexion_failure(
                input_data@.cells,
                sample_size as int,
                dominants_recurrency as int,
            ) == Some(failure.index as int),
        },
{
    let length: usize = input_data.data.len();
    assert(sample_size * sample_size == length);
    let mut global_curve_data = GlobalCurveData::new(sample_size);
    let ghost made = global_curve_data;
    global_curve_data.transpose_internal();
    proof {
        blank_stays_blank(made, global_curve_data);
    }

    let input_transposed = input_data.transposed_copy();

    let vertical_dominant = recurrent_trace(input_data, dominants_recurrency);
    let horizont_dominant = recurrent_trace(&input_transposed, dominants_recurrency);

    let subtractions: Vmatrix<u32> = subtract_dominants(
        input_data,
        &vertical_dominant,
        &horizont_dominant,
    );

    match trace_stage(&mut global_curve_data, &subtractions, false) {
        Ok(()) => {},
        Err(failure) => {
            return Err(failure);
        },
    }
    match trace_stage(&mut global_curve_data, &vertical_dominant, true) {
        Ok(()) => {},
        Err(failure) => {
            return Err(failure);
        },
    }

    let ghost turned = global_curve_data;
    global_curve_data.transpose_internal();
    proof {
        blank_stays_blank(turned, global_curve_data);
    }

    match trace_stage(&mut global_curve_data, &horizont_dominant, true) {
        Ok(()) => {},
        Err(failure) => {
            return Err(failure);
        },
    }

    Ok(global_curve_data)
}

/// The bloat of a set of data that comes as a plain vector: shared data whose first matrix
/// holds, for every entry, the widest level of bloat found around it. See [write_bloats].
pub fn get_bloat_data(input_data: Vec<u32>, sample_size: usize) -> (global_curve_data: GlobalCurveData)
    requires
        input_data@.len() == sample_size * sample_size,
    ensures
        global_curve_data.wf(),
        global_curve_data.row_size == sample_size,
        global_curve_data.curves_global_output@.cells == bloated(
            input_data@,
            sample_size as int,
            zeros(input_data@.len()),
            1,
            sample_size as int / 2,
        ),
        forall|k: int|
            0 <= k < sample_size * sample_size ==> global_curve_data.curves_global_orderd@.cells[k] == 0,
        global_curve_data.global_output_number == 1,
        global_curve_data.global_orderd_cardin == 0,
{
    let length: usize = input_data.len();
    let mut global_curve_data = GlobalCurveData::new(sample_size);
    assert(global_curve_data.curves_global_output@.cells =~= zeros(input_data@.len()));

    let format_input_data = Vmatrix::build(sample_size, input_data);
    write_bloats(&mut global_curve_data, &format_input_data);

    global_curve_data
}

/// See [get_dominant_plus_bloat]. The data comes as a plain vector.
pub fn get_combined_data(input_data: Vec<u32>, sample_size: usize, dominants_recurrency: usize) -> (outcome:
    Result<(GlobalCurveData, GlobalCurveData), CurveFailure>)
    requires
        input_data@.len() == sample_size * sample_size,
    ensures
        match outcome {
            Ok(data) => {
                &&& dominant_failure(input_data@, sample_size as int, dominants_recurrency as int)
                    is None
                &&& is_blank(data.0, sample_size as int)
                &&& data.1.wf()
                &&& data.1.row_size == sample_size
                &&& data.1.curves_global_output@.cells == bloated(
                    subtractions(input_data@, sample_size as int, dominants_recurrency as int),
                    sample_size as int,
                    zeros(input_data@.len()),
                    1,
                    sample_size as int / 2,
                )
            },
            Err(failure) => dominant_failure(
                input_data@,
                sample_size as int,
                dominants_recurrency as int,
            ) == Some(failure.index as int),
        },
{
    let format_input_data = Vmatrix::build(sample_size, input_data);

    get_dominant_plus_bloat(&format_input_data, sample_size, dominants_recurrency)
}

/// Walk the curves of the long straight runs of a set of data, along the rows and along the
/// columns, and find the bloat of what is left without them. Returns the shared data of the
/// walks, which comes back as it was made, and that of the bloat. Fails with the entry at
/// which a walk gave up.
pub fn get_dominant_plus_bloat(
    input_data: &Vmatrix<u32>,
    sample_size: usize,
    dominants_recurrency: usize,
) -> (outcome: Result<(GlobalCurveData, GlobalCurveData), CurveFailure>)
    requires
        input_data.wf(),
        input_data.size == sample_size,
    ensures
        match outcome {
            Ok(data) => {
                &&& dominant_failure(input_data@.cells, sample_size as int, dominants_recurrency as int)
                    is None
                &&& is_blank(data.0, sample_size as int)
                &&& data.1.wf()
                &&& data.1.row_size == sample_size
                &&& data.1.curves_global_output@.cells == bloated(
                    subtractions(input_data@.cells, sample_size as int, dominants_recurrency as int),
                    sample_size as int,
                    zeros(input_data@.cells.len()),
                    1,
                    sample_size as int / 2,
                )
            },
            Err(failure) => dominant_failure(
                input_data@.cells,
                sample_size as int,
                dominants_recurrency as int,
            ) == Some(failure.index as int),
        },
{
    let length: usize = input_data.data.len();
    assert(sample_size * sample_size == length);
    let mut global_curve_data = GlobalCurveData::new(sample_size);
    let ghost made = global_curve_data;
    global_curve_data.transpose_internal();
    proof {
        blank_stays_blank(made, global_curve_data);
    }

    let input_transposed = input_data.transposed_copy();

    let vertical_dominant = recurrent_trace(input_data, dominants_recurrency);
    let horizont_dominant = recurrent_trace(&input_transposed, dominants_recurrency);

    let subtractions: Vmatrix<u32> = subtract_dominants(
        input_data,
        &vertical_dominant,
        &horizont_dominant,
    );

    match trace_stage(&mut global_curve_data, &vertical_dominant, true) {
        Ok(()) => {},
        Err(failure) => {
            return Err(failure);
        },
    }

    let ghost turned = global_curve_data;
    global_curve_data.transpose_internal();
    proof {
        blank_stays_blank(turned, global_curve_data);
    }

    match trace_stage(&mut global_curve_data, &horizont_dominant, true) {
        Ok(()) => {},
        Err(failure) => {
            return Err(failure);
        },
    }

    let mut bloat_curve_data = GlobalCurveData::new(sample_size);
    assert(bloat_curve_data.curves_global_output@.cells =~= zeros(input_data@.cells.len()));
    write_bloats(&mut bloat_curve_data, &subtractions);

    Ok((global_curve_data, bloat_curve_data))
}

} // verus!
