//! The engine's responses, read from the JSON document that lists them.

use vstd::prelude::*;
use vstd::string::*;
use crate::json::{document_model, json_models, parse_json, DecodeError, Json, JsonModel};
use crate::number::{parse_count, parse_winrate, text_count, text_winrate};
use crate::response::{
    move_info_models, response_models, MoveInfo, MoveInfoModel, Response, ResponseModel,
};
use crate::text::texts;
use crate::winrate::Winrate;

verus! {

/// The value of the first member with the given name, from place `from`
/// on.
pub open spec fn lookup_from(members: Seq<(Seq<char>, JsonModel)>, name: Seq<char>, from: int)
    -> Option<JsonModel>
    decreases members.len() - from,
{
    if from < 0 || from >= members.len() {
        None
    } else if members[from].0 == name {
        Some(members[from].1)
    } else {
        lookup_from(members, name, from + 1)
    }
}

/// The value under a name in an object; nothing in any other value.
pub open spec fn lookup(value: Option<JsonModel>, name: Seq<char>) -> Option<JsonModel> {
    match value {
        Some(JsonModel::Object(members)) => lookup_from(members, name, 0),
        _ => None,
    }
}

/// The count that a value is.
pub open spec fn count_of(value: Option<JsonModel>) -> Option<usize> {
    match value {
        Some(JsonModel::Number(text)) => text_count(text),
        _ => None,
    }
}

/// The win-rate that a value is.
pub open spec fn winrate_of(value: Option<JsonModel>) -> Option<Winrate> {
    match value {
        Some(JsonModel::Number(text)) => text_winrate(text),
        _ => None,
    }
}

/// The text that a value is.
pub open spec fn text_of(value: Option<JsonModel>) -> Option<Seq<char>> {
    match value {
        Some(JsonModel::Text(text)) => Some(text),
        _ => None,
    }
}

/// The items of the list that a value is.
pub open spec fn items_of(value: Option<JsonModel>) -> Option<Seq<JsonModel>> {
    match value {
        Some(JsonModel::Array(items)) => Some(items),
        _ => None,
    }
}

/// The labels of a line: the texts that the items are, where all of them
/// are texts.
pub open spec fn decoded_line(items: Seq<JsonModel>) -> Option<Seq<Seq<char>>> {
    if forall|i: int| 0 <= i < items.len() ==> #[trigger] items[i] is Text {
        Some(Seq::new(items.len(), |i: int| items[i]->Text_0))
    } else {
        None
    }
}

/// The candidate that a value describes, or the first thing that it lacks.
pub open spec fn decoded_move_info(value: JsonModel) -> Result<MoveInfoModel, DecodeError> {
    let place = text_of(lookup(Some(value), "move"@));
    let rank = count_of(lookup(Some(value), "order"@));
    let line = match items_of(lookup(Some(value), "pv"@)) {
        Some(items) => decoded_line(items),
        None => None,
    };
    let visits = count_of(lookup(Some(value), "visits"@));
    let winrate = winrate_of(lookup(Some(value), "winrate"@));
    if place is None {
        Err(DecodeError::Move)
    } else if rank is None {
        Err(DecodeError::Order)
    } else if line is None {
        Err(DecodeError::PrincipalVariation)
    } else if visits is None {
        Err(DecodeError::Visits)
    } else if winrate is None {
        Err(DecodeError::Winrate)
    } else {
        Ok(
            MoveInfoModel {
                move_location: place.unwrap(),
                rank: rank.unwrap(),
                primary_variation: line.unwrap(),
                visits: visits.unwrap(),
                winrate: winrate.unwrap(),
            },
        )
    }
}

/// The candidates that the values describe, or what the first value that
/// describes none lacks.
pub open spec fn decoded_move_infos(items: Seq<JsonModel>) -> Result<
    Seq<MoveInfoModel>,
    DecodeError,
>
    decreases items.len(),
{
    if items.len() == 0 {
        Ok(Seq::empty())
    } else {
        match decoded_move_infos(items.drop_last()) {
            Err(e) => Err(e),
            Ok(front) => match decoded_move_info(items.last()) {
                Err(e) => Err(e),
                Ok(info) => Ok(front.push(info)),
            },
        }
    }
}

/// The response that a value describes, or the first thing that it lacks.
pub open spec fn decoded_response(value: JsonModel) -> Result<ResponseModel, DecodeError> {
    let turn = count_of(lookup(Some(value), "turnNumber"@));
    let root = lookup(Some(value), "rootInfo"@);
    let visits = count_of(lookup(root, "visits"@));
    let winrate = winrate_of(lookup(root, "winrate"@));
    let items = items_of(lookup(Some(value), "moveInfos"@));
    if turn is None {
        Err(DecodeError::TurnNumber)
    } else if visits is None {
        Err(DecodeError::RootVisits)
    } else if winrate is None {
        Err(DecodeError::RootWinrate)
    } else if items is None {
        Err(DecodeError::MoveInfos)
    } else {
        match decoded_move_infos(items.unwrap()) {
            Err(e) => Err(e),
            Ok(infos) => Ok(
                ResponseModel {
                    move_infos: infos,
                    root_visits: visits.unwrap(),
                    winrate: winrate.unwrap(),
                    turn_number: turn.unwrap(),
                },
            ),
        }
    }
}

/// The responses that the values describe, or what the first value that
/// describes none lacks.
pub open spec fn decoded_responses(items: Seq<JsonModel>) -> Result<
    Seq<ResponseModel>,
    DecodeError,
>
    decreases items.len(),
{
    if items.len() == 0 {
        Ok(Seq::empty())
    } else {
        match decoded_responses(items.drop_last()) {
            Err(e) => Err(e),
            Ok(front) => match decoded_response(items.last()) {
                Err(e) => Err(e),
                Ok(response) => Ok(front.push(response)),
            },
        }
    }
}

/// The responses that a document lists.
pub open spec fn decoded_document(document: JsonModel) -> Result<Seq<ResponseModel>, DecodeError> {
    match document {
        JsonModel::Array(items) => decoded_responses(items),
        _ => Err(DecodeError::NotAList),
    }
}

/// The responses that a text lists.
pub open spec fn decoded_text(text: Seq<char>) -> Result<Seq<ResponseModel>, DecodeError> {
    match document_model(text) {
        Some(document) => decoded_document(document),
        None => Err(DecodeError::Syntax),
    }
}

/// What an optional value holds.
pub open spec fn held(value: Option<&Json>) -> Option<JsonModel> {
    match value {
        Some(json) => Some(json@),
        None => None,
    }
}

/// Finds the value under a name in an object.
fn find<'a>(value: Option<&'a Json>, name: &str) -> (res: Option<&'a Json>)
    ensures
        held(res) == lookup(held(value), name@),
{
    match value {
        Some(Json::Object(members)) => {
            let key = String::from_str(name);
            let ghost fields = value.unwrap()@->Object_0;
            let mut i: usize = 0;
            while i < members.len()
                invariant
                    i <= members@.len(),
                    key@ == name@,
                    lookup(held(value), name@) == lookup_from(fields, name@, 0),
                    fields.len() == members@.len(),
                    forall|k: int|
                        0 <= k < members@.len() ==> #[trigger] fields[k] == (
                            members@[k].name@,
                            members@[k].value@,
                        ),
                    lookup_from(fields, name@, 0) == lookup_from(fields, name@, i as int),
                decreases members@.len() - i,
            {
                assert(fields[i as int] == (members@[i as int].name@, members@[i as int].value@));
                if members[i].name == key {
                    assert(lookup_from(fields, name@, i as int) == Some(members@[i as int].value@));
                    return Some(&members[i].value);
                }
                i = i + 1;
            }
            None
        },
        _ => None,
    }
}

/// Reads a value as a count.
fn to_count(value: Option<&Json>) -> (res: Option<usize>)
    ensures
        res == count_of(held(value)),
{
    match value {
        Some(Json::Number(text)) => parse_count(text.as_str()),
        _ => None,
    }
}

/// Reads a value as a win-rate.
fn to_winrate(value: Option<&Json>) -> (res: Option<Winrate>)
    ensures
        res == winrate_of(held(value)),
{
    match value {
        Some(Json::Number(text)) => parse_winrate(text.as_str()),
        _ => None,
    }
}

/// Reads a value as a list of labels.
fn to_line(value: Option<&Json>) -> (res: Option<Vec<String>>)
    ensures
        match items_of(held(value)) {
            Some(items) => match decoded_line(items) {
                Some(line) => res is Some && texts(res.unwrap()@) == line,
                None => res is None,
            },
            None => res is None,
        },
{
    match value {
        Some(Json::Array(items)) => {
            let ghost models = value.unwrap()@->Array_0;
            let mut line: Vec<String> = Vec::new();
            let mut i: usize = 0;
            while i < items.len()
                invariant
                    i <= items@.len(),
                    items_of(held(value)) == Some(models),
                    models.len() == items@.len(),
                    forall|k: int| 0 <= k < items@.len() ==> #[trigger] models[k] == items@[k]@,
                    line@.len() == i,
                    forall|k: int| 0 <= k < i ==> #[trigger] models[k] is Text,
                    forall|k: int| 0 <= k < i ==> (#[trigger] line@[k])@ == models[k]->Text_0,
                decreases items@.len() - i,
            {
                assert(models[i as int] == items@[i as int]@);
                match &items[i] {
                    Json::Text(text) => {
                        line.push(text.clone());
                    },
                    _ => {
                        assert(!(models[i as int] is Text));
                        return None;
                    },
                }
                i = i + 1;
            }
            assert(texts(line@) =~= decoded_line(models).unwrap());
            Some(line)
        },
        _ => None,
    }
}

/// Reads the candidate that a value describes.
pub fn decode_move_info(value: &Json) -> (res: Result<MoveInfo, DecodeError>)
    ensures
        match decoded_move_info(value@) {
            Ok(info) => res is Ok && res->Ok_0@ == info,
            Err(e) => res == Err::<MoveInfo, DecodeError>(e),
        },
{
    let move_location = match find(Some(value), "move") {
        Some(Json::Text(text)) => text.clone(),
        _ => {
            return Err(DecodeError::Move);
        },
    };
    let rank = match to_count(find(Some(value), "order")) {
        Some(rank) => rank,
        None => {
            return Err(DecodeError::Order);
        },
    };
    let primary_variation = match to_line(find(Some(value), "pv")) {
        Some(line) => line,
        None => {
            return Err(DecodeError::PrincipalVariation);
        },
    };
    let visits = match to_count(find(Some(value), "visits")) {
        Some(visits) => visits,
        None => {
            return Err(DecodeError::Visits);
        },
    };
    let winrate = match to_winrate(find(Some(value), "winrate")) {
        Some(winrate) => winrate,
        None => {
            return Err(DecodeError::Winrate);
        },
    };
    Ok(MoveInfo { move_location, rank, primary_variation, visits, winrate })
}

/// Reads the response that a value describes.
pub fn decode_response(value: &Json) -> (res: Result<Response, DecodeError>)
    ensures
        match decoded_response(value@) {
            Ok(response) => res is Ok && res->Ok_0@ == response,
            Err(e) => res == Err::<Response, DecodeError>(e),
        },
{
    let turn_number = match to_count(find(Some(value), "turnNumber")) {
        Some(turn) => turn,
        None => {
            return Err(DecodeError::TurnNumber);
        },
    };
    let root = find(Some(value), "rootInfo");
    let root_visits = match to_count(find(root, "visits")) {
        Some(visits) => visits,
        None => {
            return Err(DecodeError::RootVisits);
        },
    };
    let winrate = match to_winrate(find(root, "winrate")) {
        Some(winrate) => winrate,
        None => {
            return Err(DecodeError::RootWinrate);
        },
    };
    let move_infos = match find(Some(value), "moveInfos") {
        Some(Json::Array(items)) => {
            assert(json_models(items@) =~= lookup(Some(value@), "moveInfos"@).unwrap()->Array_0);
            match decode_move_infos(items) {
                Ok(infos) => infos,
                Err(e) => {
                    return Err(e);
                },
            }
        },
        _ => {
            return Err(DecodeError::MoveInfos);
        },
    };
    Ok(Response { move_infos, root_visits, winrate, turn_number })
}

/// Reads the candidates that the values describe.
pub fn decode_move_infos(items: &Vec<Json>) -> (res: Result<Vec<MoveInfo>, DecodeError>)
    ensures
        match decoded_move_infos(json_models(items@)) {
            Ok(infos) => res is Ok && move_info_models(res->Ok_0@) == infos,
            Err(e) => res == Err::<Vec<MoveInfo>, DecodeError>(e),
        },
{
    let ghost models = json_models(items@);
    let mut move_infos: Vec<MoveInfo> = Vec::new();
    let mut i: usize = 0;
    assert(models.take(0) =~= Seq::<JsonModel>::empty());
    assert(move_info_models(move_infos@) =~= Seq::<MoveInfoModel>::empty());
    while i < items.len()
        invariant
            i <= items@.len(),
            models == json_models(items@),
            decoded_move_infos(models.take(i as int)) == Ok::<Seq<MoveInfoModel>, DecodeError>(
                move_info_models(move_infos@),
            ),
        decreases items@.len() - i,
    {
        proof {
            assert(models.take(i + 1).drop_last() =~= models.take(i as int));
            assert(models.take(i + 1).last() == items@[i as int]@);
        }
        match decode_move_info(&items[i]) {
            Ok(info) => {
                let ghost before = move_info_models(move_infos@);
                move_infos.push(info);
                assert(move_info_models(move_infos@) =~= before.push(info@));
            },
            Err(e) => {
                proof {
                    lemma_move_infos_error(models, i + 1);
                }
                return Err(e);
            },
        }
        i = i + 1;
    }
    assert(models.take(items@.len() as int) =~= models);
    Ok(move_infos)
}

/// Where the values up to some place describe no list of candidates, all of
/// them describe none, for the same reason.
pub proof fn lemma_move_infos_error(items: Seq<JsonModel>, upto: int)
    requires
        0 <= upto <= items.len(),
        decoded_move_infos(items.take(upto)) is Err,
    ensures
        decoded_move_infos(items) == decoded_move_infos(items.take(upto)),
    decreases items.len() - upto,
{
    if upto == items.len() {
        assert(items.take(upto) =~= items);
    } else {
        assert(items.take(upto + 1).drop_last() =~= items.take(upto));
        lemma_move_infos_error(items, upto + 1);
    }
}

/// Where the values up to some place describe no list of responses, all of
/// them describe none, for the same reason.
pub proof fn lemma_responses_error(items: Seq<JsonModel>, upto: int)
    requires
        0 <= upto <= items.len(),
        decoded_responses(items.take(upto)) is Err,
    ensures
        decoded_responses(items) == decoded_responses(items.take(upto)),
    decreases items.len() - upto,
{
    if upto == items.len() {
        assert(items.take(upto) =~= items);
    } else {
        assert(items.take(upto + 1).drop_last() =~= items.take(upto));
        lemma_responses_error(items, upto + 1);
    }
}

/// Reads the responses that the values describe.
pub fn decode_response_list(items: &Vec<Json>) -> (res: Result<Vec<Response>, DecodeError>)
    ensures
        match decoded_responses(json_models(items@)) {
            Ok(responses) => res is Ok && response_models(res->Ok_0@) == responses,
            Err(e) => res == Err::<Vec<Response>, DecodeError>(e),
        },
{
    let ghost models = json_models(items@);
    let mut responses: Vec<Response> = Vec::new();
    let mut i: usize = 0;
    assert(models.take(0) =~= Seq::<JsonModel>::empty());
    assert(response_models(responses@) =~= Seq::<ResponseModel>::empty());
    while i < items.len()
        invariant
            i <= items@.len(),
            models == json_models(items@),
            decoded_responses(models.take(i as int)) == Ok::<Seq<ResponseModel>, DecodeError>(
                response_models(responses@),
            ),
        decreases items@.len() - i,
    {
        proof {
            assert(models.take(i + 1).drop_last() =~= models.take(i as int));
            assert(models.take(i + 1).last() == items@[i as int]@);
        }
        match decode_response(&items[i]) {
            Ok(response) => {
                let ghost before = response_models(responses@);
                responses.push(response);
                assert(response_models(responses@) =~= before.push(response@));
            },
            Err(e) => {
                proof {
                    lemma_responses_error(models, i + 1);
                }
                return Err(e);
            },
        }
        i = i + 1;
    }
    assert(models.take(items@.len() as int) =~= models);
    Ok(responses)
}

/// Reads the responses that a document lists.
pub fn decode_responses(document: &Json) -> (res: Result<Vec<Response>, DecodeError>)
    ensures
        match decoded_document(document@) {
            Ok(responses) => res is Ok && response_models(res->Ok_0@) == responses,
            Err(e) => res == Err::<Vec<Response>, DecodeError>(e),
        },
{
    match document {
        Json::Array(items) => {
            assert(json_models(items@) =~= document@->Array_0);
            decode_response_list(items)
        },
        _ => Err(DecodeError::NotAList),
    }
}

/// Reads the responses that a text lists.
pub fn json(text: &str) -> (res: Result<Vec<Response>, DecodeError>)
    ensures
        match decoded_text(text@) {
            Ok(responses) => res is Ok && response_models(res->Ok_0@) == responses,
            Err(e) => res == Err::<Vec<Response>, DecodeError>(e),
        },
{
    match parse_json(text) {
        Ok(document) => decode_responses(&document),
        Err(e) => Err(e),
    }
}

} // verus!
