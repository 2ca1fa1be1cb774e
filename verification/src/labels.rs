use vstd::prelude::*;

use crate::adapters::UmlStateMachineDiagramAdapter;
use crate::model::{element_tree, ElementKind, ElementTree, UmlStateMachineElement};

verus! {

/// The stereotype as shown after a name: between guillemets, or nothing
/// when there is none.
pub open spec fn stereotype_suffix(st: Seq<char>) -> Seq<char> {
    if st.len() == 0 {
        Seq::<char>::empty()
    } else {
        "«"@ + st + "»"@
    }
}

/// The label of an element in the lists of the model; `note_summary` is what
/// a note with text shows of it.
pub open spec fn element_label(t: ElementTree, note_summary: Seq<char>) -> Seq<char> {
    match t.kind {
        ElementKind::StateMachine => "State Machine ("@ + t.texts[1] + stereotype_suffix(t.texts[0]) + ")"@,
        ElementKind::CompositeState => (if t.buckets[2].len() == 0 {
            "Simple State ("@
        } else {
            "Composite State ("@
        }) + t.texts[1] + stereotype_suffix(t.texts[0]) + ")"@,
        ElementKind::SimpleState => "Simple State ("@ + t.texts[1] + stereotype_suffix(t.texts[0]) + ")"@,
        ElementKind::CompositeStateRegion => "Composite State Region"@,
        ElementKind::InternalTransition => "Internal Transition ("@ + t.texts[0] + ")"@,
        ElementKind::InitialPseudostate => "Initial Pseudostate"@,
        ElementKind::TerminatePseudostate => "Terminate Pseudostate"@,
        ElementKind::FinalState => "Final State"@,
        ElementKind::Edge => "Edge"@ + (if t.texts[0].len() == 0 {
            Seq::<char>::empty()
        } else {
            " ("@ + t.texts[0] + ")"@
        }),
        ElementKind::Note => if t.texts[1].len() == 0 {
            "Note"@
        } else {
            "Note ("@ + note_summary + ")"@
        },
        ElementKind::NoteLink => "Note Link"@,
    }
}

/// `head`, the name, the stereotype between guillemets when there is one,
/// and a closing parenthesis.
fn named_label(head: &str, name: &String, stereotype: &String) -> (r: String)
    ensures
        r@ == head@ + name@ + stereotype_suffix(stereotype@) + ")"@,
{
    let mut s = String::from_str(head);
    s.append(name.as_str());
    if !stereotype.as_str().is_empty() {
        s.append("«");
        s.append(stereotype.as_str());
        s.append("»");
    }
    s.append(")");
    proof {
        assert(s@ =~= head@ + name@ + stereotype_suffix(stereotype@) + ")"@);
    }
    s
}

impl UmlStateMachineDiagramAdapter {
    /// The label of `e` in the lists of the model. What a note with text
    /// shows of it is handed over as `note_summary`.
    pub fn label_for(&self, e: &UmlStateMachineElement, note_summary: &str) -> (r: String)
        ensures
            r@ == element_label(element_tree(*e), note_summary@),
    {
        match e {
            UmlStateMachineElement::StateMachine(x) => named_label("State Machine (", &x.name, &x.stereotype),
            UmlStateMachineElement::CompositeState(x) => {
                if x.regions.len() == 0 {
                    named_label("Simple State (", &x.name, &x.stereotype)
                } else {
                    named_label("Composite State (", &x.name, &x.stereotype)
                }
            },
            UmlStateMachineElement::SimpleState(x) => named_label("Simple State (", &x.name, &x.stereotype),
            UmlStateMachineElement::CompositeStateRegion(_) => String::from_str("Composite State Region"),
            UmlStateMachineElement::InternalTransition(x) => {
                let mut s = String::from_str("Internal Transition (");
                s.append(x.trigger.as_str());
                s.append(")");
                s
            },
            UmlStateMachineElement::InitialPseudostate(_) => String::from_str("Initial Pseudostate"),
            UmlStateMachineElement::TerminatePseudostate(_) => String::from_str("Terminate Pseudostate"),
            UmlStateMachineElement::FinalState(_) => String::from_str("Final State"),
            UmlStateMachineElement::Edge(x) => {
                let mut s = String::from_str("Edge");
                if !x.name.as_str().is_empty() {
                    s.append(" (");
                    s.append(x.name.as_str());
                    s.append(")");
                }
                proof {
                    assert(s@ =~= element_label(element_tree(*e), note_summary@));
                }
                s
            },
            UmlStateMachineElement::Note(x) => {
                if x.text.as_str().is_empty() {
                    String::from_str("Note")
                } else {
                    let mut s = String::from_str("Note (");
                    s.append(note_summary);
                    s.append(")");
                    s
                }
            },
            UmlStateMachineElement::NoteLink(_) => String::from_str("Note Link"),
        }
    }
}

} // verus!
