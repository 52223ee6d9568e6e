use vstd::prelude::*;

use crate::age::{age_of_text, age_text, decimal_text, parse_age};

verus! {

/// One employee entry. The salary is kept as the text that stands for it in
/// the store, so that a record is written back exactly as it was read.
#[derive(Debug)]
pub struct Employee {
    pub department: String,
    pub name: String,
    pub age: u8,
    pub salary: String,
}

/// What an `Employee` holds, as plain values.
pub struct EmployeeView {
    pub department: Seq<char>,
    pub name: Seq<char>,
    pub age: u8,
    pub salary: Seq<char>,
}

impl View for Employee {
    type V = EmployeeView;

    open spec fn view(&self) -> EmployeeView {
        EmployeeView {
            department: self.department@,
            name: self.name@,
            age: self.age,
            salary: self.salary@,
        }
    }
}

/// The fields of the row that stores `e`, in the store's column order.
pub open spec fn record_fields(e: EmployeeView) -> Seq<Seq<char>> {
    seq![e.department, e.name, decimal_text(e.age as nat), e.salary]
}

/// The record that a row of fields stands for, where `salary_ok` tells
/// whether its salary field reads as a number. A row must have exactly the
/// four columns and an age that reads as a byte.
pub open spec fn decode_row(fields: Seq<Seq<char>>, salary_ok: bool) -> Option<EmployeeView> {
    if fields.len() == 4 && salary_ok && age_of_text(fields[2]) is Some {
        Some(
            EmployeeView {
                department: fields[0],
                name: fields[1],
                age: age_of_text(fields[2])->0,
                salary: fields[3],
            },
        )
    } else {
        None
    }
}

impl Employee {
    pub fn new(department: String, name: String, age: u8, salary: String) -> (r: Employee)
        ensures
            r@ == (EmployeeView { department: department@, name: name@, age, salary: salary@ }),
    {
        Employee { department, name, age, salary }
    }

    /// The fields of the row that stores this record.
    pub fn fields(&self) -> (r: Vec<String>)
        ensures
            r.deep_view() == record_fields(self@),
    {
        let r = vec![self.department.clone(), self.name.clone(), age_text(self.age), self.salary.clone()];
        assert(r.deep_view() =~= record_fields(self@));
        r
    }

    /// The record that a stored row stands for, or `None` where the row is
    /// malformed. `salary_ok` tells whether the row's salary reads as a number.
    pub fn from_fields(fields: &Vec<String>, salary_ok: bool) -> (r: Option<Employee>)
        ensures
            r is Some <==> decode_row(fields.deep_view(), salary_ok) is Some,
            r is Some ==> r->0@ == decode_row(fields.deep_view(), salary_ok)->0,
    {
        if fields.len() != 4 || !salary_ok {
            return None;
        }
        let age = parse_age(fields[2].as_str());
        match age {
            None => None,
            Some(age) => {
                let e = Employee {
                    department: fields[0].clone(),
                    name: fields[1].clone(),
                    age,
                    salary: fields[3].clone(),
                };
                Some(e)
            },
        }
    }
}

} // verus!
